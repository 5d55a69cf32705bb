//! Host classification and `host:port` parsing for tunnelled connections.

use crate::text::{
    chars_of, contains, decimal, digit_char, lowercase, str_contains, string_from_range, to_lowercase,
};
use vstd::prelude::*;

verus! {

/// The API hosts whose tunnels are intercepted.
pub open spec fn llm_domains() -> Seq<Seq<char>> {
    seq![
        "api.openai.com"@,
        "api.anthropic.com"@,
        "api.deepseek.com"@,
        "generativelanguage.googleapis.com"@,
        "open.bigmodel.cn"@,
    ]
}

/// A lowercase host names an LLM API: one of `llm_domains` occurs in it.
pub open spec fn is_llm_host(h: Seq<char>) -> bool {
    exists|i: int| 0 <= i < llm_domains().len() && contains(h, #[trigger] llm_domains()[i])
}

/// Whether `host` names an LLM API, case-insensitively (see `is_llm_host`).
pub fn is_llm_domain(host: &str) -> (r: bool)
    ensures
        r == is_llm_host(lowercase(host@)),
{
    let host = to_lowercase(host);
    let h = host.as_str();
    let r = str_contains(h, "api.openai.com") || str_contains(h, "api.anthropic.com")
        || str_contains(h, "api.deepseek.com") || str_contains(h, "generativelanguage.googleapis.com")
        || str_contains(h, "open.bigmodel.cn");
    proof {
        let d = llm_domains();
        if r {
            if contains(h@, "api.openai.com"@) {
                assert(contains(h@, d[0]));
            } else if contains(h@, "api.anthropic.com"@) {
                assert(contains(h@, d[1]));
            } else if contains(h@, "api.deepseek.com"@) {
                assert(contains(h@, d[2]));
            } else if contains(h@, "generativelanguage.googleapis.com"@) {
                assert(contains(h@, d[3]));
            } else {
                assert(contains(h@, d[4]));
            }
        } else {
            assert forall|i: int| 0 <= i < d.len() implies !contains(h@, #[trigger] d[i]) by {
                if i == 0 {
                } else if i == 1 {
                } else if i == 2 {
                } else if i == 3 {
                } else {
                }
            }
        }
    }
    r
}

/// The value of a decimal digit character.
pub open spec fn digit_value(c: char) -> nat {
    ((c as u32) - ('0' as u32)) as nat
}

/// `c` is one of `0`..`9`.
pub open spec fn is_digit(c: char) -> bool {
    '0' <= c && c <= '9'
}

/// The value of a string of decimal digits.
pub open spec fn digits_value(s: Seq<char>) -> nat
    decreases s.len(),
{
    if s.len() == 0 {
        0
    } else {
        digits_value(s.drop_last()) * 10 + digit_value(s.last())
    }
}

/// The text after an optional leading `+`.
pub open spec fn unsigned_digits(t: Seq<char>) -> Seq<char> {
    if t.len() > 0 && t[0] == '+' {
        t.skip(1)
    } else {
        t
    }
}

/// Every character of `s` is a decimal digit.
pub open spec fn all_digits(s: Seq<char>) -> bool {
    forall|i: int| 0 <= i < s.len() ==> is_digit(#[trigger] s[i])
}

/// `str::parse::<u16>`: an optional `+` and at least one decimal digit, with a value
/// that fits in a `u16`.
pub open spec fn parse_u16(t: Seq<char>) -> Option<u16> {
    let digits = unsigned_digits(t);
    if digits.len() > 0 && all_digits(digits) && digits_value(digits) <= u16::MAX {
        Some(digits_value(digits) as u16)
    } else {
        None
    }
}

/// Parses `v[from..to]` as a `u16` (see `parse_u16`).
pub fn parse_port(v: &Vec<char>, from: usize, to: usize) -> (r: Option<u16>)
    requires
        from <= to <= v@.len(),
    ensures
        r == parse_u16(v@.subrange(from as int, to as int)),
{
    let ghost t = v@.subrange(from as int, to as int);
    let mut start = from;
    if from < to && v[from] == '+' {
        start = from + 1;
    }
    let ghost digits = v@.subrange(start as int, to as int);
    proof {
        if from < to && v@[from as int] == '+' {
            assert(t.skip(1) =~= digits);
        } else {
            assert(t =~= digits);
        }
    }
    if start == to {
        return None;
    }
    let mut acc: u32 = 0;
    let mut i = start;
    while i < to
        invariant
            start <= i <= to <= v@.len(),
            digits == v@.subrange(start as int, to as int),
            t == v@.subrange(from as int, to as int),
            digits == unsigned_digits(t),
            forall|j: int| start <= j < i ==> is_digit(v@[j]),
            acc == digits_value(v@.subrange(start as int, i as int)),
            acc <= u16::MAX,
        decreases to - i,
    {
        let c = v[i];
        if !('0' <= c && c <= '9') {
            proof {
                assert(digits[i - start] == c);
                assert(!is_digit(digits[i - start]));
                assert(!all_digits(digits));
            }
            return None;
        }
        let d = (c as u32) - ('0' as u32);
        proof {
            assert(v@.subrange(start as int, i + 1).drop_last() =~= v@.subrange(
                start as int,
                i as int,
            ));
        }
        let next = acc * 10 + d;
        if next > 65535 {
            proof {
                assert(digits.take(i + 1 - start) =~= v@.subrange(start as int, i + 1));
                if all_digits(digits) {
                    lemma_digits_prefix_bound(digits, (i + 1 - start) as int);
                }
            }
            return None;
        }
        acc = next;
        i = i + 1;
    }
    proof {
        assert(all_digits(digits)) by {
            assert forall|j: int| 0 <= j < digits.len() implies is_digit(#[trigger] digits[j]) by {
                assert(digits[j] == v@[start + j]);
            }
        }
        assert(v@.subrange(start as int, i as int) =~= digits);
    }
    Some(acc as u16)
}

/// A prefix of a digit string has a value no larger than the whole.
proof fn lemma_digits_prefix_bound(s: Seq<char>, k: int)
    requires
        0 <= k <= s.len(),
        all_digits(s),
    ensures
        digits_value(s.take(k)) <= digits_value(s),
    decreases s.len(),
{
    if k < s.len() {
        assert(s.drop_last().take(k) =~= s.take(k));
        lemma_digits_prefix_bound(s.drop_last(), k);
        assert(digits_value(s) == digits_value(s.drop_last()) * 10 + digit_value(s.last()));
        assert(digits_value(s.drop_last()) <= digits_value(s.drop_last()) * 10) by (nonlinear_arith);
    } else {
        assert(s.take(k) =~= s);
    }
}

/// The position of the last `c` in `s`, if any.
pub open spec fn last_index_of(s: Seq<char>, c: char) -> Option<int> {
    if exists|i: int| 0 <= i < s.len() && s[i] == c {
        Some(choose|i: int| 0 <= i < s.len() && s[i] == c && forall|j: int| i < j < s.len() ==> s[j] != c)
    } else {
        None
    }
}

/// The host and port of an authority `host:port`: split at the last `:`; a port
/// that is not a `u16` (see `parse_u16`), or no `:` at all, gives port 443.
pub open spec fn host_port(a: Seq<char>) -> (Seq<char>, u16) {
    match last_index_of(a, ':') {
        Some(p) => (
            a.take(p),
            match parse_u16(a.skip(p + 1)) {
                Some(port) => port,
                None => 443,
            },
        ),
        None => (a, 443),
    }
}

proof fn lemma_last_index(s: Seq<char>, c: char, p: int)
    requires
        0 <= p < s.len(),
        s[p] == c,
        forall|j: int| p < j < s.len() ==> s[j] != c,
    ensures
        last_index_of(s, c) == Some(p),
{
    assert(exists|k: int| 0 <= k < s.len() && s[k] == c);
    let w = choose|k: int|
        0 <= k < s.len() && s[k] == c && forall|j: int| k < j < s.len() ==> s[j] != c;
    assert(0 <= p < s.len() && s[p] == c && forall|j: int| p < j < s.len() ==> s[j] != c);
    if w < p {
        assert(s[p] != c);
    } else if w > p {
        assert(s[w] != c);
    }
}

proof fn lemma_decimal_digits(n: nat)
    ensures
        decimal(n).len() > 0,
        all_digits(decimal(n)),
        digits_value(decimal(n)) == n,
    decreases n,
{
    let d = decimal(n);
    if n < 10 {
        assert(digit_value(digit_char(n)) == n);
        assert(d.drop_last() =~= Seq::<char>::empty());
        assert(d.last() == digit_char(n));
        assert(digits_value(d) == digits_value(d.drop_last()) * 10 + digit_value(d.last()));
    } else {
        lemma_decimal_digits(n / 10);
        let p = decimal(n / 10);
        assert(digit_value(digit_char(n % 10)) == n % 10);
        assert(d.drop_last() =~= p);
        assert(d.last() == digit_char(n % 10));
        assert(digits_value(d) == digits_value(p) * 10 + digit_value(digit_char(n % 10)));
        assert((n / 10) * 10 + n % 10 == n) by (nonlinear_arith);
        assert forall|i: int| 0 <= i < d.len() implies is_digit(#[trigger] d[i]) by {
            if i < p.len() {
                assert(d[i] == p[i]);
            }
        }
    }
}

/// A host joined with a port the way `target_address` joins them is split
/// back into that host and that port.
pub proof fn lemma_host_port_round_trip(host: Seq<char>, port: u16)
    ensures
        host_port(host + ":"@ + decimal(port as nat)) == (host, port),
{
    reveal_strlit(":");
    let d = decimal(port as nat);
    lemma_decimal_digits(port as nat);
    let a = host + ":"@ + d;
    let p = host.len() as int;
    assert(a[p] == ':');
    assert forall|j: int| p < j < a.len() implies a[j] != ':' by {
        assert(a[j] == d[j - p - 1]);
        assert(is_digit(d[j - p - 1]));
    }
    lemma_last_index(a, ':', p);
    assert(a.take(p) =~= host);
    assert(a.skip(p + 1) =~= d);
    assert(is_digit(d[0]));
    assert(unsigned_digits(d) == d);
}

/// Splits an authority into host and port (see `host_port`).
pub fn parse_host(authority: &str) -> (r: (String, u16))
    ensures
        (r.0@, r.1) == host_port(authority@),
{
    let v = chars_of(authority);
    let n = v.len();
    let mut i = n;
    while i > 0 && v[i - 1] != ':'
        invariant
            i <= n == v@.len(),
            v@ == authority@,
            forall|j: int| i <= j < n ==> v@[j] != ':',
        decreases i,
    {
        i = i - 1;
    }
    if i == 0 {
        proof {
            assert(!(exists|k: int| 0 <= k < v@.len() && v@[k] == ':'));
        }
        return (string_from_range(&v, 0, n), 443);
    }
    let p = i - 1;
    proof {
        let s = authority@;
        lemma_last_index(s, ':', p as int);
        assert(v@.subrange(0, n as int) =~= v@);
        assert(s.skip(p + 1) =~= v@.subrange(p + 1, n as int));
        assert(s.take(p as int) =~= v@.subrange(0, p as int));
    }
    let host = string_from_range(&v, 0, p);
    let port = match parse_port(&v, p + 1, n) {
        Some(port) => port,
        None => 443,
    };
    (host, port)
}

} // verus!
