//! Unity version numbers: parsing and the version-dependent serialization depth.
use vstd::prelude::*;

verus! {

/// A Unity editor version, `major.minor.patch`.
#[derive(Debug, Clone, Copy, PartialEq, Eq, Structural)]
pub struct UnityVersion {
    pub major: u32,
    pub minor: u32,
    pub patch: u32,
}

/// An ASCII decimal digit.
pub open spec fn is_digit(c: char) -> bool {
    '0' <= c && c <= '9'
}

/// Length of the longest prefix of `s` that holds no '.'.
pub open spec fn piece_len(s: Seq<char>) -> nat
    decreases s.len(),
{
    if s.len() == 0 || s[0] == '.' {
        0
    } else {
        1 + piece_len(s.drop_first())
    }
}

/// The `k`-th piece of `s` split at '.', or the empty sequence when `s` has fewer pieces.
pub open spec fn component(s: Seq<char>, k: nat) -> Seq<char>
    decreases k,
{
    let p = piece_len(s);
    if k == 0 {
        s.take(p as int)
    } else if p < s.len() {
        component(s.skip(p as int + 1), (k - 1) as nat)
    } else {
        Seq::empty()
    }
}

/// Length of the longest prefix of `s` made of ASCII digits.
pub open spec fn digit_run(s: Seq<char>) -> nat
    decreases s.len(),
{
    if s.len() > 0 && is_digit(s[0]) {
        1 + digit_run(s.drop_first())
    } else {
        0
    }
}

/// The number that a sequence of decimal digits denotes (0 for the empty sequence).
pub open spec fn decimal_value(d: Seq<char>) -> nat
    decreases d.len(),
{
    if d.len() == 0 {
        0
    } else {
        (decimal_value(d.drop_last()) * 10 + (d.last() as int - '0' as int)) as nat
    }
}

/// The number given by the leading digits of `s`; 0 when there are none or
/// when they denote a number above `u32::MAX`.
pub open spec fn leading_number_spec(s: Seq<char>) -> nat {
    let v = decimal_value(s.take(digit_run(s) as int));
    if v <= u32::MAX {
        v
    } else {
        0
    }
}

/// The version that a version string denotes: each of the first three
/// '.'-separated components contributes its leading number.
pub open spec fn parse_spec(s: Seq<char>) -> UnityVersion {
    UnityVersion {
        major: leading_number_spec(component(s, 0)) as u32,
        minor: leading_number_spec(component(s, 1)) as u32,
        patch: leading_number_spec(component(s, 2)) as u32,
    }
}

/// Whether collections nest ten levels deep in this version (2019.4.9 and up
/// in the 2019.4 line, 2020.1.4 and up, and every later major version).
pub open spec fn deep_serialization(v: UnityVersion) -> bool {
    ||| v.major > 2020
    ||| (v.major == 2020 && (v.minor > 1 || (v.minor == 1 && v.patch >= 4)))
    ||| (v.major == 2019 && v.minor == 4 && v.patch >= 9)
}

pub open spec fn serialization_limit_spec(v: UnityVersion) -> i32 {
    if deep_serialization(v) {
        10
    } else {
        7
    }
}

proof fn lemma_piece_len(s: Seq<char>, m: nat)
    requires
        m <= s.len(),
        forall|j: int| 0 <= j < m ==> s[j] != '.',
        m == s.len() || s[m as int] == '.',
    ensures
        piece_len(s) == m,
    decreases m,
{
    if m > 0 {
        lemma_piece_len(s.drop_first(), (m - 1) as nat);
    }
}

proof fn lemma_digit_run(s: Seq<char>, m: nat)
    requires
        m <= s.len(),
        forall|j: int| 0 <= j < m ==> is_digit(#[trigger] s[j]),
        m == s.len() || !is_digit(s[m as int]),
    ensures
        digit_run(s) == m,
    decreases m,
{
    if m > 0 {
        assert forall|j: int| 0 <= j < m - 1 implies is_digit(#[trigger] s.drop_first()[j]) by {
            assert(s.drop_first()[j] == s[j + 1]);
        }
        lemma_digit_run(s.drop_first(), (m - 1) as nat);
    }
}

/// Position of the first '.' at or after `from`, or the length of `s` when there is none.
fn next_dot(s: &str, from: usize) -> (r: usize)
    requires
        from <= s@.len(),
    ensures
        from <= r <= s@.len(),
        r == from + piece_len(s@.skip(from as int)),
{
    let n = s.unicode_len();
    let mut i = from;
    while i < n
        invariant
            n == s@.len(),
            from <= i <= n,
            forall|j: int| from <= j < i ==> s@[j] != '.',
        ensures
            i == n || s@[i as int] == '.',
        decreases n - i,
    {
        if s.get_char(i) == '.' {
            break;
        }
        i = i + 1;
    }
    proof {
        let t = s@.skip(from as int);
        assert forall|j: int| 0 <= j < i - from implies t[j] != '.' by {
            assert(t[j] == s@[j + from]);
        }
        lemma_piece_len(t, (i - from) as nat);
    }
    i
}

/// The number given by the leading ASCII digits of `component`; 0 when there
/// are none or when they do not fit in a `u32`.
pub fn leading_number(component: &str) -> (r: u32)
    ensures
        r == leading_number_spec(component@),
{
    let s = component;
    let n = s.unicode_len();
    let mut value: u64 = 0;
    let mut too_big = false;
    let mut i: usize = 0;
    while i < n
        invariant
            n == s@.len(),
            i <= n,
            forall|j: int| 0 <= j < i ==> is_digit(#[trigger] s@[j]),
            !too_big ==> value == decimal_value(s@.take(i as int)) && value <= u32::MAX,
            too_big ==> decimal_value(s@.take(i as int)) > u32::MAX,
        ensures
            i == n || !is_digit(s@[i as int]),
        decreases n - i,
    {
        let c = s.get_char(i);
        if !('0' <= c && c <= '9') {
            break;
        }
        proof {
            assert(s@.take(i + 1).drop_last() =~= s@.take(i as int));
            assert(s@.take(i + 1).last() == c);
        }
        if !too_big {
            let d = (c as u32 - '0' as u32) as u64;
            value = value * 10 + d;
            if value > 0xFFFF_FFFF {
                too_big = true;
            }
        }
        i = i + 1;
    }
    proof {
        lemma_digit_run(s@, i as nat);
    }
    if too_big {
        0
    } else {
        value as u32
    }
}

impl UnityVersion {
    /// Parse e.g. `6000.0.0` or `2022.3.0f1`. Each component contributes its
    /// leading run of digits; a missing component is 0.
    pub fn parse(version: &str) -> (r: UnityVersion)
        ensures
            r == parse_spec(version@),
    {
        let ghost s = version@;
        let n = version.unicode_len();
        let e0 = next_dot(version, 0);
        assert(s.skip(0) =~= s);
        let major = leading_number(version.substring_char(0, e0));
        assert(component(s, 0) =~= s.subrange(0, e0 as int));
        let mut minor: u32 = 0;
        let mut patch: u32 = 0;
        if e0 < n {
            let s1 = e0 + 1;
            let e1 = next_dot(version, s1);
            let ghost t1 = s.skip(s1 as int);
            assert(component(s, 1) == component(t1, 0));
            assert(component(t1, 0) =~= s.subrange(s1 as int, e1 as int));
            minor = leading_number(version.substring_char(s1, e1));
            if e1 < n {
                let s2 = e1 + 1;
                let e2 = next_dot(version, s2);
                let ghost t2 = s.skip(s2 as int);
                assert(t1.skip(piece_len(t1) as int + 1) =~= t2);
                assert(component(t1, 1) == component(t2, 0));
                assert(component(s, 2) == component(t1, 1));
                assert(component(t2, 0) =~= s.subrange(s2 as int, e2 as int));
                patch = leading_number(version.substring_char(s2, e2));
            } else {
                assert(component(s, 2) == component(t1, 1));
                assert(component(t1, 1) =~= Seq::<char>::empty());
            }
        } else {
            assert(component(s, 1) =~= Seq::<char>::empty());
            assert(component(s, 2) =~= Seq::<char>::empty());
        }
        UnityVersion { major, minor, patch }
    }

    /// Nesting depth at and beyond which collections are no longer serialized.
    pub fn serialization_limit(&self) -> (r: i32)
        ensures
            r == serialization_limit_spec(*self),
    {
        if self.major > 2020 || (self.major == 2020 && (self.minor > 1 || (self.minor == 1
            && self.patch >= 4))) || (self.major == 2019 && self.minor == 4 && self.patch >= 9) {
            10
        } else {
            7
        }
    }
}


/// A version string without any '.' has minor and patch 0: a missing
/// component is 0.
pub proof fn law_missing_components_are_zero(s: Seq<char>)
    requires
        forall|i: int| 0 <= i < s.len() ==> s[i] != '.',
    ensures
        parse_spec(s).minor == 0,
        parse_spec(s).patch == 0,
{
    lemma_piece_len(s, s.len());
    assert(component(s, 1) =~= Seq::<char>::empty());
    assert(component(s, 2) =~= Seq::<char>::empty());
    reveal_with_fuel(decimal_value, 1);
    assert(Seq::<char>::empty().take(0) =~= Seq::<char>::empty());
}

/// Every version from 2020.1.4 on serializes collections ten levels deep.
pub proof fn law_deep_from_2020_1_4(v: UnityVersion)
    requires
        v.major > 2020 || (v.major == 2020 && (v.minor > 1 || (v.minor == 1 && v.patch >= 4))),
    ensures
        serialization_limit_spec(v) == 10,
{
}

/// The decimal digits of `n`, without leading zeros.
pub open spec fn decimal(n: nat) -> Seq<char>
    decreases n,
{
    if n < 10 {
        seq![('0' as int + n) as char]
    } else {
        decimal(n / 10).push(('0' as int + n % 10) as char)
    }
}

proof fn lemma_decimal(n: nat)
    ensures
        decimal(n).len() >= 1,
        forall|j: int| 0 <= j < decimal(n).len() ==> is_digit(#[trigger] decimal(n)[j]),
        decimal_value(decimal(n)) == n,
    decreases n,
{
    let d = decimal(n);
    if n < 10 {
        assert(d.drop_last() =~= Seq::<char>::empty());
        assert(d.last() as int == '0' as int + n);
        assert(decimal_value(d.drop_last()) == 0);
        assert(decimal_value(d) == n);
    } else {
        lemma_decimal(n / 10);
        let p = decimal(n / 10);
        assert(d.drop_last() =~= p);
        assert forall|j: int| 0 <= j < d.len() implies is_digit(#[trigger] d[j]) by {
            if j < p.len() {
                assert(d[j] == p[j]);
            }
        }
        assert(d.last() as int == '0' as int + n % 10);
        assert(decimal_value(d.drop_last()) == n / 10);
        assert(decimal_value(d) == (n / 10) * 10 + n % 10);
        assert(n == (n / 10) * 10 + n % 10);
    }
}

/// Splitting digits, a '.', and a rest at the first '.' gives the digits and the rest.
proof fn lemma_split_digits(d: Seq<char>, rest: Seq<char>)
    requires
        forall|j: int| 0 <= j < d.len() ==> is_digit(#[trigger] d[j]),
    ensures
        component(d + seq!['.'] + rest, 0) == d,
        piece_len(d + seq!['.'] + rest) < (d + seq!['.'] + rest).len(),
        (d + seq!['.'] + rest).skip(d.len() as int + 1) == rest,
{
    let s = d + seq!['.'] + rest;
    assert forall|j: int| 0 <= j < d.len() implies s[j] != '.' by {
        assert(s[j] == d[j]);
        assert(is_digit(d[j]));
    }
    assert(s[d.len() as int] == '.');
    lemma_piece_len(s, d.len());
    assert(s.take(d.len() as int) =~= d);
    assert(s.skip(d.len() as int + 1) =~= rest);
}

/// The leading number of digits followed by a rest that does not start
/// with a digit is the value of the digits.
proof fn lemma_leading_digits(d: Seq<char>, t: Seq<char>)
    requires
        forall|j: int| 0 <= j < d.len() ==> is_digit(#[trigger] d[j]),
        t.len() == 0 || !is_digit(t[0]),
        decimal_value(d) <= u32::MAX,
    ensures
        leading_number_spec(d + t) == decimal_value(d),
{
    let s = d + t;
    assert forall|j: int| 0 <= j < d.len() implies is_digit(#[trigger] s[j]) by {
        assert(s[j] == d[j]);
    }
    if t.len() > 0 {
        assert(s[d.len() as int] == t[0]);
    }
    lemma_digit_run(s, d.len());
    assert(s.take(d.len() as int) =~= d);
}

/// Printing a version as `major.minor.patch` followed by a suffix that holds
/// no '.' and does not start with a digit (such as `f1`) and parsing it gives
/// the version back.
pub proof fn law_parse_round_trip(a: u32, b: u32, c: u32, t: Seq<char>)
    requires
        forall|i: int| 0 <= i < t.len() ==> t[i] != '.',
        t.len() == 0 || !is_digit(t[0]),
    ensures
        parse_spec(decimal(a as nat) + seq!['.'] + decimal(b as nat) + seq!['.'] + decimal(c as nat) + t)
            == (UnityVersion { major: a, minor: b, patch: c }),
{
    let da = decimal(a as nat);
    let db = decimal(b as nat);
    let dc = decimal(c as nat);
    lemma_decimal(a as nat);
    lemma_decimal(b as nat);
    lemma_decimal(c as nat);
    let s2 = dc + t;
    let s1 = db + seq!['.'] + s2;
    let s = da + seq!['.'] + s1;
    assert(s =~= da + seq!['.'] + db + seq!['.'] + dc + t);
    lemma_split_digits(da, s1);
    lemma_split_digits(db, s2);
    assert forall|j: int| 0 <= j < s2.len() implies s2[j] != '.' by {
        if j < dc.len() {
            assert(s2[j] == dc[j]);
            assert(is_digit(dc[j]));
        } else {
            assert(s2[j] == t[j - dc.len()]);
        }
    }
    lemma_piece_len(s2, s2.len());
    assert(s2.take(s2.len() as int) =~= s2);
    assert(component(s, 1) == component(s1, 0));
    assert(component(s, 2) == component(s1, 1));
    assert(component(s1, 1) == component(s2, 0));
    assert(da + Seq::<char>::empty() =~= da);
    assert(db + Seq::<char>::empty() =~= db);
    lemma_leading_digits(da, Seq::empty());
    lemma_leading_digits(db, Seq::empty());
    lemma_leading_digits(dc, t);
}

/// The serialization limit is 7 or 10.
pub proof fn law_limit_is_seven_or_ten(v: UnityVersion)
    ensures
        serialization_limit_spec(v) == 7 || serialization_limit_spec(v) == 10,
{
}
} // verus!
