use vstd::prelude::*;
use crate::text::{
    ascii_lower, chars_of, has_no_upper, lower_char, skip_spaces, starts_with, starts_with_at,
    trim_start,
};

verus! {

/// The line beginnings that announce another server, in the order in which they are tried.
pub open spec fn referral_prefixes() -> Seq<Seq<char>> {
    seq![
        "whois:"@,
        "Whois Server:"@,
        "Registrar WHOIS Server:"@,
        "ReferralServer:  whois://"@,
        "descr:          region. Please query"@,
    ]
}

/// The `k`-th referral prefix.
fn referral_prefix(k: usize) -> (r: &'static str)
    requires
        k < referral_prefixes().len(),
    ensures
        r@ == referral_prefixes()[k as int],
{
    match k {
        0 => "whois:",
        1 => "Whois Server:",
        2 => "Registrar WHOIS Server:",
        3 => "ReferralServer:  whois://",
        _ => "descr:          region. Please query",
    }
}

/// The first referral prefix, from the `k`-th on, that `t` begins with.
pub open spec fn first_prefix_from(t: Seq<char>, k: nat) -> Option<nat>
    decreases referral_prefixes().len() - k,
{
    if k >= referral_prefixes().len() {
        None
    } else if starts_with(t, referral_prefixes()[k as int]) {
        Some(k)
    } else {
        first_prefix_from(t, k + 1)
    }
}

/// What [`first_prefix_from`] finds is a referral prefix that `t` begins with.
proof fn lemma_first_prefix_found(t: Seq<char>, k: nat)
    ensures
        first_prefix_from(t, k) matches Some(m) ==> m < referral_prefixes().len() && starts_with(
            t,
            referral_prefixes()[m as int],
        ),
    decreases referral_prefixes().len() - k,
{
    if k < referral_prefixes().len() && !starts_with(t, referral_prefixes()[k as int]) {
        lemma_first_prefix_found(t, k + 1);
    }
}

/// The first referral prefix that `t` begins with.
pub open spec fn first_prefix(t: Seq<char>) -> Option<nat> {
    first_prefix_from(t, 0)
}

/// Whether `c` may stand at the end of a host name: an ASCII letter or digit, `.` or `-`.
pub open spec fn is_host_char(c: char) -> bool {
    ('a' <= c && c <= 'z') || ('A' <= c && c <= 'Z') || ('0' <= c && c <= '9') || c == '.' || c
        == '-'
}

/// `s` without the characters at its end that cannot end a host name.
pub open spec fn trim_host_end(s: Seq<char>) -> Seq<char>
    decreases s.len(),
{
    if s.len() > 0 && !is_host_char(s.last()) {
        trim_host_end(s.drop_last())
    } else {
        s
    }
}

/// The server that `line` refers to, if it announces one: after leading whitespace the line
/// begins with a referral prefix, and what follows it, without leading whitespace and without
/// the characters at its end that cannot end a host name, is the host, in lower case.
pub open spec fn referral_of(line: Seq<char>) -> Option<Seq<char>> {
    let t = trim_start(line);
    match first_prefix(t) {
        Some(k) => Some(
            ascii_lower(trim_host_end(trim_start(t.skip(referral_prefixes()[k as int].len() as int)))),
        ),
        None => None,
    }
}

/// A host name found by [`referral_of`] holds no upper-case ASCII letter.
pub proof fn lemma_referral_lower_case(line: Seq<char>)
    ensures
        referral_of(line) matches Some(h) ==> has_no_upper(h),
{
    if let Some(h) = referral_of(line) {
        assert forall|i: int| 0 <= i < h.len() implies !('A' <= #[trigger] h[i] && h[i] <= 'Z') by {
            let c = h[i];
            assert(c == lower_char(c) || !('A' <= c && c <= 'Z'));
        }
    }
}

/// Where the characters of `s` from `e` on cannot end a host name and the one before `e` can
/// (or `e` is 0), trimming the end of `s` leaves its first `e` characters.
proof fn lemma_trim_host_end_at(s: Seq<char>, e: int)
    requires
        0 <= e <= s.len(),
        forall|j: int| e <= j < s.len() ==> !is_host_char(#[trigger] s[j]),
        e == 0 || is_host_char(s[e - 1]),
    ensures
        trim_host_end(s) == s.take(e),
    decreases s.len() - e,
{
    if e < s.len() {
        let t = s.drop_last();
        lemma_trim_host_end_at(t, e);
        assert(t.take(e) =~= s.take(e));
    } else {
        assert(s.take(e) =~= s);
    }
}

/// The index of the first referral prefix that the characters of `cs` from `at` on begin with.
fn find_prefix(cs: &Vec<char>, at: usize) -> (r: Option<usize>)
    requires
        at <= cs@.len(),
    ensures
        r matches Some(k) ==> first_prefix(cs@.skip(at as int)) == Some(k as nat) && k
            < referral_prefixes().len() && starts_with(
            cs@.skip(at as int),
            referral_prefixes()[k as int],
        ),
        r is None ==> first_prefix(cs@.skip(at as int)) is None,
{
    let ghost t = cs@.skip(at as int);
    proof {
        lemma_first_prefix_found(t, 0);
    }
    let mut k: usize = 0;
    while k < 5
        invariant
            k <= 5,
            at <= cs@.len(),
            t == cs@.skip(at as int),
            first_prefix(t) == first_prefix_from(t, k as nat),
        decreases 5 - k,
    {
        let p = chars_of(referral_prefix(k));
        if starts_with_at(cs, at, &p) {
            return Some(k);
        }
        k = k + 1;
    }
    None
}

/// The server that `line` refers to, if it announces one (see [`referral_of`]).
pub fn extract_referral(line: &str) -> (r: Option<String>)
    ensures
        r matches Some(h) ==> referral_of(line@) == Some(h@),
        r is None ==> referral_of(line@) is None,
        r matches Some(h) ==> has_no_upper(h@),
{
    proof {
        lemma_referral_lower_case(line@);
    }
    let cs = chars_of(line);
    let i = skip_spaces(&cs, 0);
    assert(cs@.skip(0) =~= cs@);
    match find_prefix(&cs, i) {
        None => None,
        Some(k) => {
            let ghost t = cs@.skip(i as int);
            let plen = chars_of(referral_prefix(k)).len();
            let n = cs.len();
            assert(i + plen <= n);
            let start = skip_spaces(&cs, i + plen);
            assert(t.skip(plen as int) =~= cs@.skip((i + plen) as int));
            let mut e: usize = cs.len();
            while e > start && !is_host_char_exec(cs[e - 1])
                invariant
                    start <= e <= cs@.len(),
                    forall|j: int| e <= j < cs@.len() ==> !is_host_char(#[trigger] cs@[j]),
                decreases e,
            {
                e = e - 1;
            }
            let ghost u = cs@.skip(start as int);
            proof {
                assert forall|j: int| e - start <= j < u.len() implies !is_host_char(
                    #[trigger] u[j],
                ) by {
                    assert(u[j] == cs@[j + start]);
                }
                lemma_trim_host_end_at(u, e - start);
                assert(u.take(e - start) =~= cs@.subrange(start as int, e as int));
            }
            let host = line.substring_char(start, e).to_ascii_lowercase();
            Some(host)
        },
    }
}

/// Whether `c` may stand at the end of a host name (see [`is_host_char`]).
fn is_host_char_exec(c: char) -> (r: bool)
    ensures
        r == is_host_char(c),
{
    ('a' <= c && c <= 'z') || ('A' <= c && c <= 'Z') || ('0' <= c && c <= '9') || c == '.' || c
        == '-'
}

} // verus!
