//! Byte-string helpers shared by the template engine and the scheduler:
//! whitespace trimming, substring search, decimal formatting and parsing.

use vstd::prelude::*;

verus! {

/// ASCII whitespace, the set trimmed from subjects and placeholder keys.
pub open spec fn is_ws(b: u8) -> bool {
    b == 32 || (9 <= b && b <= 13)
}

/// `s` with leading whitespace removed.
pub open spec fn trim_front(s: Seq<u8>) -> Seq<u8>
    decreases s.len(),
{
    if s.len() > 0 && is_ws(s[0]) {
        trim_front(s.drop_first())
    } else {
        s
    }
}

/// `s` with trailing whitespace removed.
pub open spec fn trim_back(s: Seq<u8>) -> Seq<u8>
    decreases s.len(),
{
    if s.len() > 0 && is_ws(s[s.len() - 1]) {
        trim_back(s.drop_last())
    } else {
        s
    }
}

/// `s` with leading and trailing whitespace removed.
pub open spec fn trimmed(s: Seq<u8>) -> Seq<u8> {
    trim_back(trim_front(s))
}

proof fn lemma_trim_front_is_suffix(s: Seq<u8>, i: int)
    requires
        0 <= i <= s.len(),
        forall|k: int| 0 <= k < i ==> is_ws(s[k]),
        i == s.len() || !is_ws(s[i]),
    ensures
        trim_front(s) == s.subrange(i, s.len() as int),
    decreases i,
{
    if i == 0 {
        assert(trim_front(s) == s.subrange(0, s.len() as int)) by {
            if s.len() > 0 && is_ws(s[0]) {
                assert(false);
            }
            assert(s.subrange(0, s.len() as int) =~= s);
        }
    } else {
        let t = s.drop_first();
        assert(forall|k: int| 0 <= k < i - 1 ==> is_ws(t[k]));
        lemma_trim_front_is_suffix(t, i - 1);
        assert(t.subrange(i - 1, t.len() as int) =~= s.subrange(i, s.len() as int));
    }
}

proof fn lemma_trim_back_is_prefix(s: Seq<u8>, j: int)
    requires
        0 <= j <= s.len(),
        forall|k: int| j <= k < s.len() ==> is_ws(s[k]),
        j == 0 || !is_ws(s[j - 1]),
    ensures
        trim_back(s) == s.subrange(0, j),
    decreases s.len() - j,
{
    if j == s.len() {
        assert(trim_back(s) == s.subrange(0, j)) by {
            if s.len() > 0 && is_ws(s[s.len() - 1]) {
                assert(false);
            }
            assert(s.subrange(0, s.len() as int) =~= s);
        }
    } else {
        let t = s.drop_last();
        assert(forall|k: int| j <= k < t.len() ==> is_ws(t[k]));
        lemma_trim_back_is_prefix(t, j);
    }
}

/// A copy of `s` with leading and trailing ASCII whitespace removed.
pub fn trim(s: &Vec<u8>) -> (r: Vec<u8>)
    ensures
        r@ == trimmed(s@),
{
    let n: usize = s.len();
    let mut i: usize = 0;
    while i < n && is_ws_byte(s[i])
        invariant
            0 <= i <= n,
            n == s@.len(),
            forall|k: int| 0 <= k < i ==> is_ws(s@[k]),
        decreases n - i,
    {
        i = i + 1;
    }
    let mut j: usize = n;
    while j > i && is_ws_byte(s[j - 1])
        invariant
            i <= j <= n,
            n == s@.len(),
            forall|k: int| 0 <= k < i ==> is_ws(s@[k]),
            i == n || !is_ws(s@[i as int]),
            forall|k: int| j <= k < n ==> is_ws(s@[k]),
        decreases j,
    {
        j = j - 1;
    }
    let mut r: Vec<u8> = Vec::new();
    let mut k: usize = i;
    while k < j
        invariant
            i <= k <= j <= n,
            n == s@.len(),
            r@ == s@.subrange(i as int, k as int),
        decreases j - k,
    {
        r.push(s[k]);
        assert(r@ =~= s@.subrange(i as int, k + 1));
        k = k + 1;
    }
    proof {
        lemma_trim_front_is_suffix(s@, i as int);
        let f = s@.subrange(i as int, n as int);
        if j == i {
            lemma_trim_back_is_prefix(f, 0);
        } else {
            assert(!is_ws(f[j - i - 1]));
            lemma_trim_back_is_prefix(f, j - i);
        }
        assert(f.subrange(0, j - i) =~= s@.subrange(i as int, j as int));
    }
    r
}

/// Whether byte `b` is ASCII whitespace.
pub fn is_ws_byte(b: u8) -> (r: bool)
    ensures
        r == is_ws(b),
{
    b == 32 || (9 <= b && b <= 13)
}

/// Whether `pat` occurs in `s` starting at position `i`.
pub open spec fn match_at(s: Seq<u8>, pat: Seq<u8>, i: int) -> bool {
    0 <= i && i + pat.len() <= s.len() && s.subrange(i, i + pat.len()) == pat
}

/// The first position at or after `from` where `pat` occurs in `s`.
pub open spec fn find(s: Seq<u8>, pat: Seq<u8>, from: int) -> Option<int>
    decreases s.len() - from,
{
    if pat.len() == 0 || from + pat.len() > s.len() {
        None
    } else if match_at(s, pat, from) {
        Some(from)
    } else {
        find(s, pat, from + 1)
    }
}

/// A found position lies between `from` and the last place `pat` fits,
/// and is the first match at or after `from`.
pub proof fn lemma_find_bounds(s: Seq<u8>, pat: Seq<u8>, from: int)
    requires
        0 <= from,
        pat.len() > 0,
    ensures
        match find(s, pat, from) {
            Some(j) => {
                &&& from <= j
                &&& j + pat.len() <= s.len()
                &&& match_at(s, pat, j)
                &&& forall|k: int| from <= k < j ==> !match_at(s, pat, k)
            },
            None => forall|k: int| from <= k ==> !match_at(s, pat, k),
        },
    decreases s.len() - from,
{
    if from + pat.len() > s.len() {
        assert(forall|k: int| from <= k ==> !match_at(s, pat, k));
    } else if match_at(s, pat, from) {
    } else {
        lemma_find_bounds(s, pat, from + 1);
    }
}

/// First occurrence of `pat` in `s` at or after `from`, as `find` describes.
pub fn find_sub(s: &Vec<u8>, pat: &Vec<u8>, from: usize) -> (r: Option<usize>)
    requires
        pat@.len() > 0,
    ensures
        match r {
            Some(j) => from <= j && find(s@, pat@, from as int) == Some(j as int),
            None => find(s@, pat@, from as int) is None,
        },
{
    let n: usize = s.len();
    let m: usize = pat.len();
    if from > n || m > n - from {
        proof {
            lemma_find_none_when_short(s@, pat@, from as int);
        }
        return None;
    }
    let mut i: usize = from;
    while i <= n - m
        invariant
            from <= i,
            i + m <= n + 1,
            m >= 1,
            m <= n,
            n == s@.len(),
            m == pat@.len(),
            forall|k: int| from <= k < i ==> !match_at(s@, pat@, k),
            find(s@, pat@, from as int) == find(s@, pat@, i as int),
        decreases n - i,
    {
        let mut ok: bool = true;
        let mut t: usize = 0;
        while t < m
            invariant
                0 <= t <= m,
                i + m <= n,
                n == s@.len(),
                m == pat@.len(),
                ok == (forall|u: int| 0 <= u < t ==> s@[i + u] == pat@[u]),
            decreases m - t,
        {
            if s[i + t] != pat[t] {
                ok = false;
                t = m;
            } else {
                t = t + 1;
            }
        }
        if ok {
            assert(match_at(s@, pat@, i as int)) by {
                assert(s@.subrange(i as int, i + m) =~= pat@);
            }
            return Some(i);
        }
        assert(!match_at(s@, pat@, i as int)) by {
            if match_at(s@, pat@, i as int) {
                let u = choose|u: int| 0 <= u < m && s@[i + u] != pat@[u];
                assert(s@.subrange(i as int, i + m)[u] == s@[i + u]);
            }
        }
        i = i + 1;
    }
    proof {
        lemma_find_none_when_short(s@, pat@, i as int);
    }
    None
}

proof fn lemma_find_none_when_short(s: Seq<u8>, pat: Seq<u8>, from: int)
    requires
        from + pat.len() > s.len(),
    ensures
        find(s, pat, from) is None,
{
}

/// Whether `pat` occurs anywhere in `s`.
pub open spec fn contains_sub(s: Seq<u8>, pat: Seq<u8>) -> bool {
    find(s, pat, 0) is Some
}

/// Whether `pat` occurs anywhere in `s`.
pub fn contains_bytes(s: &Vec<u8>, pat: &Vec<u8>) -> (r: bool)
    requires
        pat@.len() > 0,
    ensures
        r == contains_sub(s@, pat@),
{
    find_sub(s, pat, 0).is_some()
}

/// Whether two byte strings hold the same bytes.
pub fn bytes_eq(a: &Vec<u8>, b: &Vec<u8>) -> (r: bool)
    ensures
        r == (a@ == b@),
{
    if a.len() != b.len() {
        return false;
    }
    let n: usize = a.len();
    let mut i: usize = 0;
    while i < n
        invariant
            0 <= i <= n,
            n == a@.len(),
            n == b@.len(),
            forall|k: int| 0 <= k < i ==> a@[k] == b@[k],
        decreases n - i,
    {
        if a[i] != b[i] {
            return false;
        }
        i = i + 1;
    }
    proof {
        assert(a@ =~= b@);
    }
    true
}

/// Appends the bytes of `src` to `out`.
pub fn append_bytes(out: &mut Vec<u8>, src: &Vec<u8>)
    ensures
        final(out)@ == old(out)@ + src@,
{
    let n: usize = src.len();
    let mut i: usize = 0;
    while i < n
        invariant
            0 <= i <= n,
            n == src@.len(),
            out@ == old(out)@ + src@.subrange(0, i as int),
        decreases n - i,
    {
        out.push(src[i]);
        assert(out@ =~= old(out)@ + src@.subrange(0, i + 1));
        i = i + 1;
    }
    proof {
        assert(src@.subrange(0, n as int) =~= src@);
    }
}

/// A copy of the byte range `[from, to)` of `s`.
pub fn slice_range(s: &Vec<u8>, from: usize, to: usize) -> (r: Vec<u8>)
    requires
        from <= to <= s@.len(),
    ensures
        r@ == s@.subrange(from as int, to as int),
{
    let mut r: Vec<u8> = Vec::new();
    let mut k: usize = from;
    while k < to
        invariant
            from <= k <= to <= s@.len(),
            r@ == s@.subrange(from as int, k as int),
        decreases to - k,
    {
        r.push(s[k]);
        assert(r@ =~= s@.subrange(from as int, k + 1));
        k = k + 1;
    }
    r
}

/// The decimal digits of `n`, most significant first.
pub open spec fn dec_nat(n: nat) -> Seq<u8>
    decreases n,
{
    if n < 10 {
        seq![(48 + n) as u8]
    } else {
        dec_nat(n / 10) + seq![(48 + n % 10) as u8]
    }
}

/// The decimal rendering of `i`, with a leading `-` when negative.
pub open spec fn dec_int(i: int) -> Seq<u8> {
    if i < 0 {
        seq![45u8] + dec_nat((-i) as nat)
    } else {
        dec_nat(i as nat)
    }
}

/// The decimal digits of `n`, as `dec_nat` describes.
pub fn u64_to_dec(n: u64) -> (r: Vec<u8>)
    ensures
        r@ == dec_nat(n as nat),
    decreases n,
{
    if n < 10 {
        let mut r: Vec<u8> = Vec::new();
        r.push(48 + (n as u8));
        assert(r@ =~= dec_nat(n as nat));
        r
    } else {
        let mut r = u64_to_dec(n / 10);
        r.push(48 + ((n % 10) as u8));
        assert(r@ =~= dec_nat(n as nat));
        r
    }
}

/// The decimal rendering of `i`, as `dec_int` describes.
pub fn i64_to_dec(i: i64) -> (r: Vec<u8>)
    ensures
        r@ == dec_int(i as int),
{
    if i >= 0 {
        u64_to_dec(i as u64)
    } else {
        let mag: u64 = if i == i64::MIN {
            9223372036854775808u64
        } else {
            (-i) as u64
        };
        let mut r: Vec<u8> = Vec::new();
        r.push(45);
        let digits = u64_to_dec(mag);
        append_bytes(&mut r, &digits);
        assert(r@ =~= dec_int(i as int));
        r
    }
}

/// Whether every byte of `s` is a decimal digit, and `s` is non-empty.
pub open spec fn all_digits(s: Seq<u8>) -> bool {
    s.len() > 0 && forall|k: int| 0 <= k < s.len() ==> 48 <= #[trigger] s[k] <= 57
}

/// The number the digit string `s` denotes.
pub open spec fn digits_value(s: Seq<u8>) -> nat
    decreases s.len(),
{
    if s.len() == 0 {
        0
    } else {
        digits_value(s.drop_last()) * 10 + (s[s.len() - 1] - 48) as nat
    }
}

proof fn lemma_digits_value_prefix_grows(s: Seq<u8>, i: int)
    requires
        all_digits(s),
        0 <= i <= s.len(),
    ensures
        digits_value(s.subrange(0, i)) <= digits_value(s),
    decreases s.len() - i,
{
    if i == s.len() {
        assert(s.subrange(0, i) =~= s);
    } else {
        lemma_digits_value_prefix_grows(s, i + 1);
        let p = s.subrange(0, i + 1);
        assert(p.drop_last() =~= s.subrange(0, i));
        assert(digits_value(s.subrange(0, i)) <= digits_value(p));
    }
}

/// The number `s` denotes in decimal, when `s` is all digits after an
/// optional leading `+` and the value fits in `u64`; `None` otherwise.
/// `s` with one leading `+` removed, the sign `str::parse` accepts.
pub open spec fn sans_plus(s: Seq<u8>) -> Seq<u8> {
    if s.len() > 0 && s[0] == 43 {
        s.drop_first()
    } else {
        s
    }
}

pub open spec fn parsed_u64(s: Seq<u8>) -> Option<u64> {
    if all_digits(sans_plus(s)) && digits_value(sans_plus(s)) <= u64::MAX {
        Some(digits_value(sans_plus(s)) as u64)
    } else {
        None
    }
}

/// Parses `s` as a decimal `u64`, as `parsed_u64` describes.
pub fn parse_u64(s: &Vec<u8>) -> (r: Option<u64>)
    ensures
        r == parsed_u64(s@),
{
    let start: usize = if s.len() > 0 && s[0] == 43 {
        1
    } else {
        0
    };
    let ghost d: Seq<u8> = sans_plus(s@);
    proof {
        assert(d =~= s@.subrange(start as int, s@.len() as int));
    }
    let n: usize = s.len();
    if start == n {
        return None;
    }
    let mut acc: u64 = 0;
    let mut i: usize = start;
    while i < n
        invariant
            start <= i <= n,
            n == s@.len(),
            start < n,
            d == sans_plus(s@),
            d == s@.subrange(start as int, n as int),
            forall|k: int| start <= k < i ==> 48 <= #[trigger] s@[k] <= 57,
            acc as nat == digits_value(s@.subrange(start as int, i as int)),
        decreases n - i,
    {
        let b = s[i];
        if b < 48 || b > 57 {
            proof {
                assert(d[i - start] == s@[i as int]);
                assert(!all_digits(d));
                assert(parsed_u64(s@) is None);
            }
            return None;
        }
        let digit: u64 = (b - 48) as u64;
        let next: Option<u64> = match acc.checked_mul(10) {
            Some(p) => p.checked_add(digit),
            None => None,
        };
        proof {
            let p = s@.subrange(start as int, i + 1);
            assert(p.drop_last() =~= s@.subrange(start as int, i as int));
            assert(digits_value(p) == acc as nat * 10 + digit as nat);
        }
        match next {
            Some(v) => {
                acc = v;
            },
            None => {
                proof {
                    let p = s@.subrange(start as int, i + 1);
                    assert(forall|k: int| 0 <= k < d.len() ==> d[k] == s@[start + k]);
                    if all_digits(d) {
                        lemma_digits_value_prefix_grows(d, i + 1 - start);
                        assert(d.subrange(0, i + 1 - start) =~= p);
                        assert(digits_value(d) > u64::MAX);
                    }
                }
                return None;
            },
        }
        i = i + 1;
    }
    proof {
        assert(s@.subrange(start as int, n as int) =~= d);
        assert(forall|k: int| 0 <= k < d.len() ==> d[k] == s@[start + k]);
        assert(all_digits(d));
    }
    Some(acc)
}

/// Parses `s` as a decimal `u16`: the `u64` value when it fits, else `None`.
pub fn parse_u16(s: &Vec<u8>) -> (r: Option<u16>)
    ensures
        match parsed_u64(s@) {
            Some(v) => if v <= u16::MAX as u64 {
                r == Some(v as u16)
            } else {
                r is None
            },
            None => r is None,
        },
{
    match parse_u64(s) {
        Some(v) => if v <= 65535 {
            Some(v as u16)
        } else {
            None
        },
        None => None,
    }
}

/// Whether `b` is a UTF-8 continuation byte.
pub open spec fn is_cont(b: u8) -> bool {
    0x80 <= b && b <= 0xBF
}

/// Whether `s` is valid UTF-8 from position `i` on.
pub open spec fn is_utf8_from(s: Seq<u8>, i: int) -> bool
    decreases s.len() - i,
{
    if i >= s.len() {
        true
    } else if i < 0 {
        false
    } else {
        let b = s[i];
        if b < 0x80 {
            is_utf8_from(s, i + 1)
        } else if 0xC2 <= b && b <= 0xDF {
            if i + 1 < s.len() && is_cont(s[i + 1]) {
                is_utf8_from(s, i + 2)
            } else {
                false
            }
        } else if 0xE0 <= b && b <= 0xEF {
            let lo: u8 = if b == 0xE0 {
                0xA0
            } else if b == 0xED {
                0x80
            } else {
                0x80
            };
            let hi: u8 = if b == 0xE0 {
                0xBF
            } else if b == 0xED {
                0x9F
            } else {
                0xBF
            };
            if i + 2 < s.len() && lo <= s[i + 1] && s[i + 1] <= hi && is_cont(s[i + 2]) {
                is_utf8_from(s, i + 3)
            } else {
                false
            }
        } else if 0xF0 <= b && b <= 0xF4 {
            let lo: u8 = if b == 0xF0 {
                0x90
            } else {
                0x80
            };
            let hi: u8 = if b == 0xF4 {
                0x8F
            } else {
                0xBF
            };
            if i + 3 < s.len() && lo <= s[i + 1] && s[i + 1] <= hi && is_cont(s[i + 2])
                && is_cont(s[i + 3]) {
                is_utf8_from(s, i + 4)
            } else {
                false
            }
        } else {
            false
        }
    }
}

/// Whether `s` is valid UTF-8.
pub open spec fn is_utf8(s: Seq<u8>) -> bool {
    is_utf8_from(s, 0)
}

/// Checks whether `s` is valid UTF-8, as `is_utf8` describes.
pub fn check_utf8(s: &Vec<u8>) -> (r: bool)
    ensures
        r == is_utf8(s@),
{
    let n: usize = s.len();
    let mut i: usize = 0;
    while i < n
        invariant
            0 <= i <= n,
            n == s@.len(),
            is_utf8(s@) == is_utf8_from(s@, i as int),
        decreases n - i,
    {
        let b = s[i];
        if b < 0x80 {
            i = i + 1;
        } else if 0xC2 <= b && b <= 0xDF {
            if n - i > 1 && 0x80 <= s[i + 1] && s[i + 1] <= 0xBF {
                i = i + 2;
            } else {
                return false;
            }
        } else if 0xE0 <= b && b <= 0xEF {
            let lo: u8 = if b == 0xE0 {
                0xA0
            } else {
                0x80
            };
            let hi: u8 = if b == 0xED {
                0x9F
            } else {
                0xBF
            };
            if n - i > 2 && lo <= s[i + 1] && s[i + 1] <= hi && 0x80 <= s[i + 2] && s[i + 2]
                <= 0xBF {
                i = i + 3;
            } else {
                return false;
            }
        } else if 0xF0 <= b && b <= 0xF4 {
            let lo: u8 = if b == 0xF0 {
                0x90
            } else {
                0x80
            };
            let hi: u8 = if b == 0xF4 {
                0x8F
            } else {
                0xBF
            };
            if n - i > 3 && lo <= s[i + 1] && s[i + 1] <= hi && 0x80 <= s[i + 2] && s[i + 2]
                <= 0xBF && 0x80 <= s[i + 3] && s[i + 3] <= 0xBF {
                i = i + 4;
            } else {
                return false;
            }
        } else {
            return false;
        }
    }
    true
}

/// The number of UTF-8 character starts in `s`: bytes that are not
/// continuation bytes.
pub open spec fn char_count(s: Seq<u8>) -> nat
    decreases s.len(),
{
    if s.len() == 0 {
        0
    } else {
        char_count(s.drop_last()) + if s[s.len() - 1] & 0xC0 == 0x80 {
            0nat
        } else {
            1nat
        }
    }
}

/// Counts the UTF-8 character starts in `s`, as `char_count` describes.
pub fn count_chars(s: &Vec<u8>) -> (r: usize)
    ensures
        r as nat == char_count(s@),
{
    let n: usize = s.len();
    let mut c: usize = 0;
    let mut i: usize = 0;
    while i < n
        invariant
            0 <= i <= n,
            n == s@.len(),
            c <= i,
            c as nat == char_count(s@.subrange(0, i as int)),
        decreases n - i,
    {
        let b = s[i];
        proof {
            let p = s@.subrange(0, i + 1);
            assert(p.drop_last() =~= s@.subrange(0, i as int));
        }
        if b & 0xC0 != 0x80 {
            c = c + 1;
        }
        i = i + 1;
    }
    proof {
        assert(s@.subrange(0, n as int) =~= s@);
    }
    c
}

} // verus!
