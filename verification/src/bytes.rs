//! Byte-level helpers shared by the request parser and the response writer:
//! searching for a byte or a CRLF pair, slicing, ASCII case folding,
//! whitespace trimming, and decimal encoding/decoding.

use vstd::prelude::*;

verus! {

pub const CR: u8 = 13;

pub const LF: u8 = 10;

pub const SP: u8 = 32;

pub const HTAB: u8 = 9;

pub const COLON: u8 = 58;

pub const QMARK: u8 = 63;

/// Index of the first occurrence of `b` in `s` at or after `from`.
pub open spec fn spec_find_byte(s: Seq<u8>, b: u8, from: int) -> Option<int>
    decreases s.len() - from
        when 0 <= from
{
    if from >= s.len() {
        None
    } else if s[from] == b {
        Some(from)
    } else {
        spec_find_byte(s, b, from + 1)
    }
}

/// `spec_find_byte` returns the least occurrence of `b` at or after `from`,
/// or `None` when there is none.
pub proof fn lemma_find_byte(s: Seq<u8>, b: u8, from: int)
    requires
        0 <= from,
    ensures
        match spec_find_byte(s, b, from) {
            Some(i) => from <= i < s.len() && s[i] == b && (forall|j: int|
                from <= j < i ==> s[j] != b),
            None => forall|j: int| from <= j < s.len() ==> s[j] != b,
        },
    decreases s.len() - from,
{
    if from >= s.len() {
    } else if s[from] == b {
    } else {
        lemma_find_byte(s, b, from + 1);
    }
}

/// Index of the first CRLF pair in `s` at or after `from`.
pub open spec fn spec_find_crlf(s: Seq<u8>, from: int) -> Option<int>
    decreases s.len() - from
        when 0 <= from
{
    if from + 2 > s.len() {
        None
    } else if s[from] == CR && s[from + 1] == LF {
        Some(from)
    } else {
        spec_find_crlf(s, from + 1)
    }
}

/// `spec_find_crlf` returns the least CRLF position at or after `from`,
/// or `None` when there is none.
pub proof fn lemma_find_crlf(s: Seq<u8>, from: int)
    requires
        0 <= from,
    ensures
        match spec_find_crlf(s, from) {
            Some(i) => from <= i && i + 2 <= s.len() && s[i] == CR && s[i + 1] == LF && (forall|
                j: int,
            |
                from <= j < i ==> !(#[trigger] s[j] == CR && s[j + 1] == LF)),
            None => forall|j: int|
                from <= j && j + 2 <= s.len() ==> !(#[trigger] s[j] == CR && s[j + 1] == LF),
        },
    decreases s.len() - from,
{
    if from + 2 > s.len() {
    } else if s[from] == CR && s[from + 1] == LF {
    } else {
        lemma_find_crlf(s, from + 1);
    }
}

/// The first occurrence of `b` at or after `from` is at `t` exactly when `b`
/// stands at `t` and nowhere earlier.
pub proof fn lemma_find_byte_at(s: Seq<u8>, b: u8, from: int, t: int)
    requires
        0 <= from <= t < s.len(),
        s[t] == b,
        forall|j: int| from <= j < t ==> s[j] != b,
    ensures
        spec_find_byte(s, b, from) == Some(t),
{
    lemma_find_byte(s, b, from);
    match spec_find_byte(s, b, from) {
        None => {
            assert(s[t] != b);
        },
        Some(i) => {
            if i < t {
                assert(s[i] != b);
            }
            if i > t {
                assert(s[t] != b);
            }
        },
    }
}

/// The first CRLF at or after `from` is at `t` exactly when a CRLF stands at
/// `t` and no CR stands earlier.
pub proof fn lemma_find_crlf_at(s: Seq<u8>, from: int, t: int)
    requires
        0 <= from <= t,
        t + 2 <= s.len(),
        s[t] == CR,
        s[t + 1] == LF,
        forall|j: int| from <= j < t ==> s[j] != CR,
    ensures
        spec_find_crlf(s, from) == Some(t),
{
    lemma_find_crlf(s, from);
    match spec_find_crlf(s, from) {
        None => {
            assert(!(s[t] == CR && s[t + 1] == LF));
        },
        Some(i) => {
            if i < t {
                assert(s[i] != CR);
            }
            if i > t {
                assert(!(s[t] == CR && s[t + 1] == LF));
            }
        },
    }
}

pub fn find_byte(s: &Vec<u8>, b: u8, from: usize) -> (r: Option<usize>)
    requires
        from <= s@.len(),
    ensures
        match r {
            Some(i) => spec_find_byte(s@, b, from as int) == Some(i as int) && from <= i
                < s@.len(),
            None => spec_find_byte(s@, b, from as int) is None,
        },
{
    let mut i: usize = from;
    while i < s.len()
        invariant
            from <= i <= s@.len(),
            spec_find_byte(s@, b, from as int) == spec_find_byte(s@, b, i as int),
        decreases s@.len() - i,
    {
        if s[i] == b {
            return Some(i);
        }
        i = i + 1;
    }
    None
}

pub fn find_crlf(s: &Vec<u8>, from: usize) -> (r: Option<usize>)
    requires
        from <= s@.len(),
    ensures
        match r {
            Some(i) => spec_find_crlf(s@, from as int) == Some(i as int) && from <= i && i + 2
                <= s@.len(),
            None => spec_find_crlf(s@, from as int) is None,
        },
{
    let mut i: usize = from;
    while i < s.len() && i + 1 < s.len()
        invariant
            from <= i <= s@.len(),
            spec_find_crlf(s@, from as int) == spec_find_crlf(s@, i as int),
        decreases s@.len() - i,
    {
        if s[i] == CR && s[i + 1] == LF {
            return Some(i);
        }
        i = i + 1;
    }
    None
}

/// A fresh copy of `s[a..b]`.
pub fn subrange_vec(s: &Vec<u8>, a: usize, b: usize) -> (r: Vec<u8>)
    requires
        a <= b <= s@.len(),
    ensures
        r@ == s@.subrange(a as int, b as int),
{
    let mut r: Vec<u8> = Vec::new();
    let mut i: usize = a;
    while i < b
        invariant
            a <= i <= b <= s@.len(),
            r@ == s@.subrange(a as int, i as int),
        decreases b - i,
    {
        r.push(s[i]);
        proof {
            assert(s@.subrange(a as int, i as int).push(s@[i as int]) =~= s@.subrange(
                a as int,
                i + 1 as int,
            ));
        }
        i = i + 1;
    }
    r
}

/// A fresh copy of the whole of `s`.
pub fn copy_bytes(s: &Vec<u8>) -> (r: Vec<u8>)
    ensures
        r@ == s@,
{
    let r = subrange_vec(s, 0, s.len());
    proof {
        assert(s@.subrange(0, s@.len() as int) =~= s@);
    }
    r
}

pub fn append_bytes(dst: &mut Vec<u8>, src: &Vec<u8>)
    ensures
        final(dst)@ == old(dst)@ + src@,
{
    let mut i: usize = 0;
    while i < src.len()
        invariant
            i <= src@.len(),
            dst@ == old(dst)@ + src@.subrange(0, i as int),
        decreases src@.len() - i,
    {
        dst.push(src[i]);
        proof {
            assert(old(dst)@ + src@.subrange(0, i as int) + seq![src@[i as int]] =~= old(dst)@
                + src@.subrange(0, i + 1 as int));
        }
        i = i + 1;
    }
    proof {
        assert(old(dst)@ + src@.subrange(0, src@.len() as int) =~= old(dst)@ + src@);
    }
}

/// ASCII lower-casing of a single byte.
pub open spec fn spec_lower(b: u8) -> u8 {
    if 65 <= b <= 90 {
        (b + 32) as u8
    } else {
        b
    }
}

/// Byte sequences equal up to ASCII case.
pub open spec fn eq_ignore_case(a: Seq<u8>, b: Seq<u8>) -> bool {
    &&& a.len() == b.len()
    &&& forall|i: int| 0 <= i < a.len() ==> spec_lower(a[i]) == spec_lower(b[i])
}

pub fn lower_byte(b: u8) -> (r: u8)
    ensures
        r == spec_lower(b),
{
    if 65 <= b && b <= 90 {
        b + 32
    } else {
        b
    }
}

pub fn eq_ignore_ascii_case(a: &Vec<u8>, b: &Vec<u8>) -> (r: bool)
    ensures
        r == eq_ignore_case(a@, b@),
{
    if a.len() != b.len() {
        return false;
    }
    let mut i: usize = 0;
    while i < a.len()
        invariant
            i <= a@.len(),
            a@.len() == b@.len(),
            forall|j: int| 0 <= j < i ==> spec_lower(a@[j]) == spec_lower(b@[j]),
        decreases a@.len() - i,
    {
        if lower_byte(a[i]) != lower_byte(b[i]) {
            return false;
        }
        i = i + 1;
    }
    true
}

/// Header-value whitespace: space or horizontal tab.
pub open spec fn is_ws(b: u8) -> bool {
    b == SP || b == HTAB
}

/// The bounds that trimming leading and trailing whitespace from `s[a..b]`
/// narrows the range to.
pub open spec fn spec_trim_range(s: Seq<u8>, a: int, b: int) -> (int, int)
    decreases b - a
        when a <= b
{
    if a < b && is_ws(s[a]) {
        spec_trim_range(s, a + 1, b)
    } else if a < b && is_ws(s[b - 1]) {
        spec_trim_range(s, a, b - 1)
    } else {
        (a, b)
    }
}

/// `s` with leading and trailing whitespace removed.
pub open spec fn spec_trim(s: Seq<u8>) -> Seq<u8> {
    let r = spec_trim_range(s, 0, s.len() as int);
    s.subrange(r.0, r.1)
}

pub proof fn lemma_trim_range_bounds(s: Seq<u8>, a: int, b: int)
    requires
        0 <= a <= b <= s.len(),
    ensures
        a <= spec_trim_range(s, a, b).0 <= spec_trim_range(s, a, b).1 <= b,
    decreases b - a,
{
    if a < b && is_ws(s[a]) {
        lemma_trim_range_bounds(s, a + 1, b);
    } else if a < b && is_ws(s[b - 1]) {
        lemma_trim_range_bounds(s, a, b - 1);
    }
}

pub fn trim_bytes(s: &Vec<u8>) -> (r: Vec<u8>)
    ensures
        r@ == spec_trim(s@),
{
    let mut a: usize = 0;
    let mut b: usize = s.len();
    while a < b && (s[a] == SP || s[a] == HTAB)
        invariant
            a <= b <= s@.len(),
            spec_trim_range(s@, 0, s@.len() as int) == spec_trim_range(s@, a as int, b as int),
        decreases b - a,
    {
        a = a + 1;
    }
    while a < b && (s[b - 1] == SP || s[b - 1] == HTAB)
        invariant
            a <= b <= s@.len(),
            a == b || !is_ws(s@[a as int]),
            spec_trim_range(s@, 0, s@.len() as int) == spec_trim_range(s@, a as int, b as int),
        decreases b - a,
    {
        b = b - 1;
    }
    subrange_vec(s, a, b)
}

/// A sequence with no whitespace at either end trims to itself.
pub proof fn lemma_trim_identity(v: Seq<u8>)
    requires
        v.len() >= 1,
        !is_ws(v[0]),
        !is_ws(v[v.len() - 1]),
    ensures
        spec_trim(v) == v,
{
    assert(spec_trim_range(v, 0, v.len() as int) == (0int, v.len() as int));
    assert(v.subrange(0, v.len() as int) =~= v);
}

/// A single leading space trims away; nothing else changes when the rest is
/// already trimmed.
pub proof fn lemma_trim_space_prefix(v: Seq<u8>)
    requires
        spec_trim(v) == v,
    ensures
        spec_trim(seq![SP].add(v)) == v,
{
    let w = seq![SP].add(v);
    if v.len() == 0 {
        assert(spec_trim_range(w, 0, 1) == spec_trim_range(w, 1, 1));
        assert(w.subrange(1, 1) =~= v);
    } else {
        if is_ws(v[0]) {
            lemma_trim_range_bounds(v, 1, v.len() as int);
            assert(spec_trim_range(v, 0, v.len() as int) == spec_trim_range(v, 1, v.len() as int));
            assert(spec_trim(v).len() < v.len());
            assert(false);
        }
        if is_ws(v[v.len() - 1]) {
            lemma_trim_range_bounds(v, 0, v.len() - 1);
            assert(spec_trim_range(v, 0, v.len() as int) == spec_trim_range(v, 0, v.len() - 1));
            assert(spec_trim(v).len() < v.len());
            assert(false);
        }
        assert(w[1] == v[0]);
        assert(w[w.len() - 1] == v[v.len() - 1]);
        assert(spec_trim_range(w, 0, w.len() as int) == spec_trim_range(w, 1, w.len() as int));
        assert(spec_trim_range(w, 1, w.len() as int) == (1int, w.len() as int));
        assert(w.subrange(1, w.len() as int) =~= v);
    }
}

/// An ASCII decimal digit.
pub open spec fn is_digit(b: u8) -> bool {
    48 <= b <= 57
}

pub open spec fn all_digits(s: Seq<u8>) -> bool {
    forall|i: int| 0 <= i < s.len() ==> is_digit(s[i])
}

/// The number that a sequence of decimal digits denotes.
pub open spec fn digits_val(s: Seq<u8>) -> nat
    decreases s.len(),
{
    if s.len() == 0 {
        0
    } else {
        (digits_val(s.drop_last()) * 10 + (s.last() - 48)) as nat
    }
}

/// The canonical decimal digits of `n`: nonempty, no leading zero.
pub open spec fn spec_decimal(n: nat) -> Seq<u8>
    decreases n,
{
    if n < 10 {
        seq![(48 + n) as u8]
    } else {
        spec_decimal(n / 10).push((48 + n % 10) as u8)
    }
}

/// The canonical digits of `n` are digits and denote `n`.
pub proof fn lemma_decimal_digits(n: nat)
    ensures
        spec_decimal(n).len() >= 1,
        all_digits(spec_decimal(n)),
        digits_val(spec_decimal(n)) == n,
    decreases n,
{
    if n < 10 {
        let one = seq![(48 + n) as u8];
        assert(one.drop_last() =~= Seq::<u8>::empty());
        assert(digits_val(Seq::<u8>::empty()) == 0);
        assert(digits_val(one) == n);
    } else {
        lemma_decimal_digits(n / 10);
        let d = spec_decimal(n / 10);
        let whole = d.push((48 + n % 10) as u8);
        assert(whole.drop_last() =~= d);
        assert(digits_val(whole) == digits_val(d) * 10 + n % 10);
    }
}

/// Extending a digit string multiplies its value by ten and adds a digit, so
/// the value of a prefix never exceeds the value of the whole string.
pub proof fn lemma_digits_val_prefix_le(s: Seq<u8>, j: int)
    requires
        0 <= j <= s.len(),
        all_digits(s),
    ensures
        digits_val(s.subrange(0, j)) <= digits_val(s),
    decreases s.len() - j,
{
    if j == s.len() {
        assert(s.subrange(0, j) =~= s);
    } else {
        lemma_digits_val_prefix_le(s, j + 1);
        let p = s.subrange(0, j + 1);
        assert(p.drop_last() =~= s.subrange(0, j));
        assert(digits_val(p) == digits_val(s.subrange(0, j)) * 10 + (s[j] - 48));
    }
}

/// Parses a nonempty all-digit byte string as a `usize`.
pub fn parse_decimal(s: &Vec<u8>) -> (r: Option<usize>)
    ensures
        match r {
            Some(n) => s@.len() > 0 && all_digits(s@) && digits_val(s@) == n as nat,
            None => s@.len() == 0 || !all_digits(s@) || digits_val(s@) > usize::MAX,
        },
{
    if s.len() == 0 {
        return None;
    }
    let mut acc: usize = 0;
    let mut i: usize = 0;
    while i < s.len()
        invariant
            i <= s@.len(),
            all_digits(s@.subrange(0, i as int)),
            acc as nat == digits_val(s@.subrange(0, i as int)),
        decreases s@.len() - i,
    {
        let b = s[i];
        if !(48 <= b && b <= 57) {
            assert(!is_digit(s@[i as int]));
            return None;
        }
        let d = (b - 48) as usize;
        proof {
            assert(s@.subrange(0, i + 1 as int).drop_last() =~= s@.subrange(0, i as int));
        }
        let next = match acc.checked_mul(10) {
            Some(m) => m.checked_add(d),
            None => None,
        };
        match next {
            Some(v) => {
                acc = v;
            },
            None => {
                proof {
                    assert(digits_val(s@.subrange(0, i + 1 as int)) > usize::MAX);
                    if all_digits(s@) {
                        lemma_digits_val_prefix_le(s@, i + 1);
                    }
                }
                return None;
            },
        }
        i = i + 1;
    }
    proof {
        assert(s@.subrange(0, s@.len() as int) =~= s@);
    }
    Some(acc)
}

/// Renders `n` as decimal digits.
pub fn encode_decimal(n: u64) -> (r: Vec<u8>)
    ensures
        r@ == spec_decimal(n as nat),
    decreases n,
{
    if n < 10 {
        let mut r: Vec<u8> = Vec::new();
        r.push(48 + n as u8);
        proof {
            assert(r@ =~= spec_decimal(n as nat));
        }
        r
    } else {
        let mut r = encode_decimal(n / 10);
        r.push(48 + (n % 10) as u8);
        r
    }
}

} // verus!
