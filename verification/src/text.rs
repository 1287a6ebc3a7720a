//! Character-level text primitives shared by the SIP and SDP codecs.
//!
//! Texts are handled as `Seq<char>` in specifications and as `Vec<char>`
//! in executable code; positions are indices into those sequences.
use vstd::prelude::*;

verus! {

/// The characters of a string slice, in order.
pub fn chars_of(s: &str) -> (v: Vec<char>)
    ensures
        v@ == s@,
{
    let mut v: Vec<char> = Vec::new();
    for c in it: s.chars()
        invariant
            v@ == it.seq().take(it.index() as int),
            it.seq() == s@,
    {
        v.push(c);
    }
    v
}

/// Appends one character to a string (`String::push`).
#[verifier::external_body]
pub(crate) fn push_char(s: &mut String, c: char)
    ensures
        final(s)@ == old(s)@.push(c),
{
    s.push(c);
}

/// Appends the characters `v[i..j]` to `s`.
pub fn push_range(s: &mut String, v: &Vec<char>, i: usize, j: usize)
    requires
        i <= j <= v@.len(),
    ensures
        final(s)@ == old(s)@ + v@.subrange(i as int, j as int),
{
    let mut k = i;
    while k < j
        invariant
            i <= k <= j <= v@.len(),
            s@ == old(s)@ + v@.subrange(i as int, k as int),
        decreases j - k,
    {
        push_char(s, v[k]);
        assert(v@.subrange(i as int, k + 1) == v@.subrange(i as int, k as int).push(v@[k as int]));
        k = k + 1;
    }
}

/// The string made of the characters `v[i..j]`.
pub fn string_of_range(v: &Vec<char>, i: usize, j: usize) -> (s: String)
    requires
        i <= j <= v@.len(),
    ensures
        s@ == v@.subrange(i as int, j as int),
{
    let mut s = String::new();
    push_range(&mut s, v, i, j);
    assert(Seq::<char>::empty() + v@.subrange(i as int, j as int) == v@.subrange(i as int, j as int));
    s
}

/// Appends a whole string slice to `s`.
pub fn push_str(s: &mut String, t: &str)
    ensures
        final(s)@ == old(s)@ + t@,
{
    let v = chars_of(t);
    push_range(s, &v, 0, v.len());
    assert(v@.subrange(0, v@.len() as int) == v@);
}

/// A copy of a string with the same characters.
pub fn copy_string(s: &String) -> (r: String)
    ensures
        r@ == s@,
{
    let mut r = String::new();
    push_str(&mut r, s.as_str());
    assert(Seq::<char>::empty() + s@ == s@);
    r
}

/// Unicode `White_Space`, the property that `char::is_whitespace` tests.
pub open spec fn is_ws(c: char) -> bool {
    let u = c as u32;
    (0x09 <= u <= 0x0D) || u == 0x20 || u == 0x85 || u == 0xA0 || u == 0x1680
        || (0x2000 <= u <= 0x200A) || u == 0x2028 || u == 0x2029 || u == 0x202F
        || u == 0x205F || u == 0x3000
}

pub fn is_whitespace(c: char) -> (b: bool)
    ensures
        b == is_ws(c),
{
    let u = c as u32;
    (0x09 <= u && u <= 0x0D) || u == 0x20 || u == 0x85 || u == 0xA0 || u == 0x1680
        || (0x2000 <= u && u <= 0x200A) || u == 0x2028 || u == 0x2029 || u == 0x202F
        || u == 0x205F || u == 0x3000
}

/// First index in `[i, j)` that does not hold whitespace, or `j`.
pub open spec fn skip_ws(s: Seq<char>, i: int, j: int) -> int
    decreases j - i,
{
    if i < j && is_ws(s[i]) {
        skip_ws(s, i + 1, j)
    } else {
        i
    }
}

/// First index in `[i, j)` that holds whitespace, or `j`.
pub open spec fn skip_text(s: Seq<char>, i: int, j: int) -> int
    decreases j - i,
{
    if i < j && !is_ws(s[i]) {
        skip_text(s, i + 1, j)
    } else {
        i
    }
}

/// The end of `s[i..j]` once trailing whitespace is dropped.
pub open spec fn trim_end_at(s: Seq<char>, i: int, j: int) -> int
    decreases j - i,
{
    if i < j && is_ws(s[j - 1]) {
        trim_end_at(s, i, j - 1)
    } else {
        j
    }
}

/// `s[i..j]` with leading and trailing whitespace removed (`str::trim`).
pub open spec fn trimmed(s: Seq<char>, i: int, j: int) -> Seq<char> {
    let a = skip_ws(s, i, j);
    s.subrange(a, trim_end_at(s, a, j))
}

/// `t` with leading and trailing whitespace removed.
pub open spec fn trim(t: Seq<char>) -> Seq<char> {
    trimmed(t, 0, t.len() as int)
}

pub proof fn lemma_skip_ws(s: Seq<char>, i: int, j: int)
    requires
        i <= j,
    ensures
        i <= skip_ws(s, i, j) <= j,
        forall|k: int| i <= k < skip_ws(s, i, j) ==> is_ws(#[trigger] s[k]),
        skip_ws(s, i, j) < j ==> !is_ws(s[skip_ws(s, i, j)]),
    decreases j - i,
{
    if i < j && is_ws(s[i]) {
        lemma_skip_ws(s, i + 1, j);
    }
}

pub proof fn lemma_skip_text(s: Seq<char>, i: int, j: int)
    requires
        i <= j,
    ensures
        i <= skip_text(s, i, j) <= j,
        forall|k: int| i <= k < skip_text(s, i, j) ==> !is_ws(#[trigger] s[k]),
        skip_text(s, i, j) < j ==> is_ws(s[skip_text(s, i, j)]),
    decreases j - i,
{
    if i < j && !is_ws(s[i]) {
        lemma_skip_text(s, i + 1, j);
    }
}

pub proof fn lemma_trim_end_at(s: Seq<char>, i: int, j: int)
    requires
        i <= j,
    ensures
        i <= trim_end_at(s, i, j) <= j,
        forall|k: int| trim_end_at(s, i, j) <= k < j ==> is_ws(#[trigger] s[k]),
        trim_end_at(s, i, j) > i ==> !is_ws(s[trim_end_at(s, i, j) - 1]),
    decreases j - i,
{
    if i < j && is_ws(s[j - 1]) {
        lemma_trim_end_at(s, i, j - 1);
    }
}

pub fn skip_ws_exec(v: &Vec<char>, i: usize, j: usize) -> (r: usize)
    requires
        i <= j <= v@.len(),
    ensures
        r == skip_ws(v@, i as int, j as int),
        i <= r <= j,
{
    proof {
        lemma_skip_ws(v@, i as int, j as int);
    }
    let mut k = i;
    while k < j && is_whitespace(v[k])
        invariant
            i <= k <= j <= v@.len(),
            skip_ws(v@, k as int, j as int) == skip_ws(v@, i as int, j as int),
        decreases j - k,
    {
        k = k + 1;
    }
    k
}

pub fn skip_text_exec(v: &Vec<char>, i: usize, j: usize) -> (r: usize)
    requires
        i <= j <= v@.len(),
    ensures
        r == skip_text(v@, i as int, j as int),
        i <= r <= j,
{
    proof {
        lemma_skip_text(v@, i as int, j as int);
    }
    let mut k = i;
    while k < j && !is_whitespace(v[k])
        invariant
            i <= k <= j <= v@.len(),
            skip_text(v@, k as int, j as int) == skip_text(v@, i as int, j as int),
        decreases j - k,
    {
        k = k + 1;
    }
    k
}

pub fn trim_end_exec(v: &Vec<char>, i: usize, j: usize) -> (r: usize)
    requires
        i <= j <= v@.len(),
    ensures
        r == trim_end_at(v@, i as int, j as int),
        i <= r <= j,
{
    proof {
        lemma_trim_end_at(v@, i as int, j as int);
    }
    let mut k = j;
    while k > i && is_whitespace(v[k - 1])
        invariant
            i <= k <= j <= v@.len(),
            trim_end_at(v@, i as int, k as int) == trim_end_at(v@, i as int, j as int),
        decreases k - i,
    {
        k = k - 1;
    }
    k
}

/// The string `v[i..j]` trimmed of surrounding whitespace.
pub fn trimmed_string(v: &Vec<char>, i: usize, j: usize) -> (s: String)
    requires
        i <= j <= v@.len(),
    ensures
        s@ == trimmed(v@, i as int, j as int),
{
    let a = skip_ws_exec(v, i, j);
    let b = trim_end_exec(v, a, j);
    string_of_range(v, a, b)
}

/// First index `k >= i` at which `s[k..k+2]` is `"\r\n"`, or `s.len()`.
pub open spec fn find_crlf(s: Seq<char>, i: int) -> int
    decreases s.len() - i,
{
    if i + 1 >= s.len() {
        s.len() as int
    } else if s[i] == '\r' && s[i + 1] == '\n' {
        i
    } else {
        find_crlf(s, i + 1)
    }
}

pub proof fn lemma_find_crlf(s: Seq<char>, i: int)
    requires
        0 <= i <= s.len(),
    ensures
        i <= find_crlf(s, i) <= s.len(),
        find_crlf(s, i) < s.len() ==> find_crlf(s, i) + 1 < s.len() && s[find_crlf(s, i)]
            == '\r' && s[find_crlf(s, i) + 1] == '\n',
        forall|k: int|
            i <= k < find_crlf(s, i) && k + 1 < s.len() ==> !(#[trigger] s[k] == '\r' && s[k
                + 1] == '\n'),
    decreases s.len() - i,
{
    if i + 1 >= s.len() {
    } else if s[i] == '\r' && s[i + 1] == '\n' {
    } else {
        lemma_find_crlf(s, i + 1);
    }
}

pub fn find_crlf_exec(v: &Vec<char>, i: usize) -> (r: usize)
    requires
        i <= v@.len(),
    ensures
        r == find_crlf(v@, i as int),
        i <= r <= v@.len(),
{
    proof {
        lemma_find_crlf(v@, i as int);
    }
    let n = v.len();
    let mut k = i;
    while k < n && n - k > 1
        invariant
            i <= k <= n,
            n == v@.len(),
            find_crlf(v@, k as int) == find_crlf(v@, i as int),
        decreases n - k,
    {
        if v[k] == '\r' && v[k + 1] == '\n' {
            return k;
        }
        k = k + 1;
    }
    n
}

/// First index in `[i, j)` that holds `c`, or `j`.
pub open spec fn find_char(s: Seq<char>, c: char, i: int, j: int) -> int
    decreases j - i,
{
    if i >= j {
        j
    } else if s[i] == c {
        i
    } else {
        find_char(s, c, i + 1, j)
    }
}

pub proof fn lemma_find_char(s: Seq<char>, c: char, i: int, j: int)
    requires
        i <= j,
    ensures
        i <= find_char(s, c, i, j) <= j,
        find_char(s, c, i, j) < j ==> s[find_char(s, c, i, j)] == c,
        forall|k: int| i <= k < find_char(s, c, i, j) ==> #[trigger] s[k] != c,
    decreases j - i,
{
    if i < j && s[i] != c {
        lemma_find_char(s, c, i + 1, j);
    }
}

pub fn find_char_exec(v: &Vec<char>, c: char, i: usize, j: usize) -> (r: usize)
    requires
        i <= j <= v@.len(),
    ensures
        r == find_char(v@, c, i as int, j as int),
        i <= r <= j,
{
    proof {
        lemma_find_char(v@, c, i as int, j as int);
    }
    let mut k = i;
    while k < j
        invariant
            i <= k <= j <= v@.len(),
            find_char(v@, c, k as int, j as int) == find_char(v@, c, i as int, j as int),
        decreases j - k,
    {
        if v[k] == c {
            return k;
        }
        k = k + 1;
    }
    j
}


/// The whitespace-separated tokens of `s[i..j]` (`str::split_whitespace`).
pub open spec fn ws_tokens(s: Seq<char>, i: int, j: int) -> Seq<Seq<char>>
    decreases j - i,
{
    if i >= j {
        seq![]
    } else {
        let a = skip_ws(s, i, j);
        if a >= j {
            seq![]
        } else {
            let b = skip_text(s, a, j);
            proof {
                lemma_skip_ws(s, i, j);
                lemma_skip_text(s, a, j);
            }
            seq![s.subrange(a, b)] + ws_tokens(s, b, j)
        }
    }
}

/// The whitespace-separated tokens of a whole text.
pub open spec fn tokens(t: Seq<char>) -> Seq<Seq<char>> {
    ws_tokens(t, 0, t.len() as int)
}

/// The texts that a list of index ranges select in `s`.
pub open spec fn range_texts(s: Seq<char>, rs: Seq<(usize, usize)>) -> Seq<Seq<char>> {
    rs.map_values(|r: (usize, usize)| s.subrange(r.0 as int, r.1 as int))
}

/// The index ranges of the whitespace-separated tokens of `v[i..j]`.
pub fn ws_token_ranges(v: &Vec<char>, i: usize, j: usize) -> (rs: Vec<(usize, usize)>)
    requires
        i <= j <= v@.len(),
    ensures
        range_texts(v@, rs@) == ws_tokens(v@, i as int, j as int),
        forall|k: int| 0 <= k < rs@.len() ==> i <= (#[trigger] rs@[k]).0 <= rs@[k].1 <= j,
{
    let mut rs: Vec<(usize, usize)> = Vec::new();
    let mut k = i;
    while k < j
        invariant
            i <= k <= j <= v@.len(),
            range_texts(v@, rs@) + ws_tokens(v@, k as int, j as int) == ws_tokens(
                v@,
                i as int,
                j as int,
            ),
            forall|m: int| 0 <= m < rs@.len() ==> i <= (#[trigger] rs@[m]).0 <= rs@[m].1 <= j,
        decreases j - k,
    {
        let a = skip_ws_exec(v, k, j);
        if a >= j {
            assert(ws_tokens(v@, k as int, j as int) == Seq::<Seq<char>>::empty());
            assert(range_texts(v@, rs@) + Seq::<Seq<char>>::empty() == range_texts(v@, rs@));
            k = j;
        } else {
        let b = skip_text_exec(v, a, j);
        proof {
            lemma_skip_ws(v@, k as int, j as int);
            lemma_skip_text(v@, a as int, j as int);
        }
        let ghost old_rs = rs@;
        rs.push((a, b));
        assert(range_texts(v@, rs@) == range_texts(v@, old_rs).push(v@.subrange(a as int, b as int)));
        assert(ws_tokens(v@, k as int, j as int) == seq![v@.subrange(a as int, b as int)] + ws_tokens(v@, b as int, j as int));
        assert(range_texts(v@, rs@) + ws_tokens(v@, b as int, j as int) == range_texts(v@, old_rs) + ws_tokens(v@, k as int, j as int));
        k = b;
        }
    }
    assert(ws_tokens(v@, k as int, j as int) == Seq::<Seq<char>>::empty());
    assert(range_texts(v@, rs@) + Seq::<Seq<char>>::empty() == range_texts(v@, rs@));
    rs
}

/// `ts` joined with `sep` between consecutive elements.
pub open spec fn join(ts: Seq<Seq<char>>, sep: Seq<char>) -> Seq<char>
    decreases ts.len(),
{
    if ts.len() == 0 {
        seq![]
    } else if ts.len() == 1 {
        ts[0]
    } else {
        join(ts.drop_last(), sep) + sep + ts.last()
    }
}

/// The character of a decimal digit.
pub open spec fn digit_char(d: nat) -> char {
    (48 + d) as char
}

/// The decimal numeral of `n`, without sign or leading zeros.
pub open spec fn decimal(n: nat) -> Seq<char>
    decreases n,
{
    if n < 10 {
        seq![digit_char(n)]
    } else {
        decimal(n / 10).push(digit_char(n % 10))
    }
}

/// Appends the decimal numeral of `n` to `s`.
pub fn push_decimal(s: &mut String, n: u64)
    ensures
        final(s)@ == old(s)@ + decimal(n as nat),
    decreases n,
{
    let d = (n % 10) as u8;
    let c = (48u8 + d) as char;
    assert(c == digit_char((n % 10) as nat)) by {
        assert(d < 10);
    }
    if n >= 10 {
        push_decimal(s, n / 10);
        push_char(s, c);
        assert(old(s)@ + decimal((n / 10) as nat) + seq![c] == old(s)@ + decimal(n as nat));
    } else {
        push_char(s, c);
        assert(old(s)@.push(c) == old(s)@ + decimal(n as nat));
    }
}

pub open spec fn is_digit(c: char) -> bool {
    48 <= (c as u32) <= 57
}

pub open spec fn all_digits(s: Seq<char>) -> bool {
    forall|k: int| 0 <= k < s.len() ==> is_digit(#[trigger] s[k])
}

/// The value of a numeral made of decimal digits.
pub open spec fn digits_value(s: Seq<char>) -> nat
    decreases s.len(),
{
    if s.len() == 0 {
        0
    } else {
        digits_value(s.drop_last()) * 10 + ((s.last() as u32) - 48) as nat
    }
}

/// What `str::parse` gives for an unsigned integer type whose largest value is
/// `max`: an optional `+`, then one or more decimal digits, of value at most `max`.
pub open spec fn parse_uint(s: Seq<char>, max: nat) -> Option<nat> {
    let d = if s.len() > 0 && s[0] == '+' {
        s.drop_first()
    } else {
        s
    };
    if d.len() > 0 && all_digits(d) && digits_value(d) <= max {
        Some(digits_value(d))
    } else {
        None
    }
}

/// Parses `v[i..j]` as an unsigned integer no larger than `max`.
pub fn parse_uint_exec(v: &Vec<char>, i: usize, j: usize, max: u64) -> (r: Option<u64>)
    requires
        i <= j <= v@.len(),
    ensures
        match parse_uint(v@.subrange(i as int, j as int), max as nat) {
            Some(n) => r == Some(n as u64),
            None => r is None,
        },
{
    let ghost s = v@.subrange(i as int, j as int);
    let start = if i < j && v[i] == '+' {
        i + 1
    } else {
        i
    };
    let ghost d = v@.subrange(start as int, j as int);
    assert(d == (if s.len() > 0 && s[0] == '+' {
        s.drop_first()
    } else {
        s
    }));
    if start >= j {
        return None;
    }
    let mut acc: u64 = 0;
    let mut over = false;
    let mut k = start;
    while k < j
        invariant
            start <= k <= j <= v@.len(),
            d == v@.subrange(start as int, j as int),
            s == v@.subrange(i as int, j as int),
            d == (if s.len() > 0 && s[0] == '+' {
                s.drop_first()
            } else {
                s
            }),
            all_digits(v@.subrange(start as int, k as int)),
            !over ==> acc as nat == digits_value(v@.subrange(start as int, k as int)),
            over ==> digits_value(v@.subrange(start as int, k as int)) > max,
            !over ==> acc <= max,
        decreases j - k,
    {
        let c = v[k];
        let u = c as u32;
        if u < 48 || u > 57 {
            assert(!is_digit(d[k - start]));
            assert(!all_digits(d));
            return None;
        }
        let ghost pre = v@.subrange(start as int, k as int);
        let ghost next = v@.subrange(start as int, k + 1);
        assert(next.drop_last() == pre);
        assert(next.last() == c);
        assert(digits_value(next) == digits_value(pre) * 10 + (u - 48) as nat);
        assert(all_digits(next)) by {
            assert forall|m: int| 0 <= m < next.len() implies is_digit(#[trigger] next[m]) by {
                if m < pre.len() {
                    assert(next[m] == pre[m]);
                }
            }
        }
        if !over {
            let dig = (u - 48) as u64;
            match acc.checked_mul(10) {
                Some(t) => {
                    match t.checked_add(dig) {
                        Some(t2) => {
                            if t2 > max {
                                over = true;
                            } else {
                                acc = t2;
                            }
                        },
                        None => {
                            over = true;
                        },
                    }
                },
                None => {
                    over = true;
                },
            }
        } else {
            assert(digits_value(pre) * 10 >= digits_value(pre)) by (nonlinear_arith);
        }
        k = k + 1;
    }
    if over {
        None
    } else {
        Some(acc)
    }
}

/// ASCII lower case of one character; other characters stay.
pub open spec fn ascii_lower(c: char) -> char {
    if 65 <= (c as u32) <= 90 {
        ((c as u32) + 32) as char
    } else {
        c
    }
}

/// ASCII upper case of one character; other characters stay.
pub open spec fn ascii_upper(c: char) -> char {
    if 97 <= (c as u32) <= 122 {
        ((c as u32) - 32) as char
    } else {
        c
    }
}

/// `str::eq_ignore_ascii_case`: same length, equal up to ASCII case.
pub open spec fn eq_ignore_case(a: Seq<char>, b: Seq<char>) -> bool {
    a.len() == b.len() && forall|k: int| 0 <= k < a.len() ==> ascii_lower(#[trigger] a[k])
        == ascii_lower(b[k])
}

pub fn ascii_lower_exec(c: char) -> (r: char)
    ensures
        r == ascii_lower(c),
{
    let u = c as u32;
    if 65 <= u && u <= 90 {
        let b = (u + 32) as u8;
        b as char
    } else {
        c
    }
}

pub fn eq_ignore_case_exec(a: &Vec<char>, b: &Vec<char>) -> (r: bool)
    ensures
        r == eq_ignore_case(a@, b@),
{
    if a.len() != b.len() {
        return false;
    }
    let mut k: usize = 0;
    while k < a.len()
        invariant
            a@.len() == b@.len(),
            k <= a@.len(),
            forall|m: int| 0 <= m < k ==> ascii_lower(#[trigger] a@[m]) == ascii_lower(b@[m]),
        decreases a@.len() - k,
    {
        if ascii_lower_exec(a[k]) != ascii_lower_exec(b[k]) {
            return false;
        }
        k = k + 1;
    }
    true
}

/// Whether `p` is a prefix of `s`.
pub open spec fn has_prefix(s: Seq<char>, p: Seq<char>) -> bool {
    p.len() <= s.len() && s.subrange(0, p.len() as int) == p
}

pub fn has_prefix_exec(s: &Vec<char>, p: &str) -> (r: bool)
    ensures
        r == has_prefix(s@, p@),
{
    let pv = chars_of(p);
    if pv.len() > s.len() {
        return false;
    }
    let mut k: usize = 0;
    while k < pv.len()
        invariant
            pv@ == p@,
            pv@.len() <= s@.len(),
            k <= pv@.len(),
            forall|m: int| 0 <= m < k ==> s@[m] == pv@[m],
        decreases pv@.len() - k,
    {
        if s[k] != pv[k] {
            assert(s@.subrange(0, pv@.len() as int)[k as int] != pv@[k as int]);
            return false;
        }
        k = k + 1;
    }
    assert(s@.subrange(0, pv@.len() as int) == pv@);
    true
}

/// Unicode upper case of a text that holds a non-ASCII character, as
/// `str::to_uppercase` computes it.
pub uninterp spec fn unicode_uppercase(s: Seq<char>) -> Seq<char>;

pub open spec fn is_ascii_text(s: Seq<char>) -> bool {
    forall|k: int| 0 <= k < s.len() ==> (#[trigger] s[k] as u32) < 128
}

/// The upper case of a text (`str::to_uppercase`): on ASCII text each letter
/// `a`..`z` becomes `A`..`Z` and all else stays; other texts follow Unicode.
pub open spec fn uppercase(s: Seq<char>) -> Seq<char> {
    if is_ascii_text(s) {
        s.map_values(|c: char| ascii_upper(c))
    } else {
        unicode_uppercase(s)
    }
}

/// `str::to_uppercase`. On ASCII text its result maps `a`..`z` to `A`..`Z`
/// (the standard library converts the ASCII prefix with `u8::to_ascii_uppercase`,
/// and that is also the Unicode mapping of ASCII letters); on other text it is
/// the Unicode upper case, named `unicode_uppercase` and not stated further.
#[verifier::external_body]
pub(crate) fn to_uppercase(s: &str) -> (r: String)
    ensures
        r@ == uppercase(s@),
        !is_ascii_text(s@) ==> r@ == unicode_uppercase(s@),
{
    s.to_uppercase()
}


/// Text that `String::from_utf8_lossy` makes of a byte sequence that is not
/// valid UTF-8.
pub uninterp spec fn utf8_lossy_invalid(b: Seq<u8>) -> Seq<char>;

/// The text that `String::from_utf8_lossy` makes of a byte sequence: the
/// decoded text when the bytes are valid UTF-8.
pub open spec fn utf8_lossy(b: Seq<u8>) -> Seq<char> {
    if vstd::utf8::valid_utf8(b) {
        vstd::utf8::decode_utf8(b)
    } else {
        utf8_lossy_invalid(b)
    }
}

/// `String::from_utf8_lossy`. On valid UTF-8 its result is the decoded text, as
/// its documentation states (only invalid sequences are replaced, by U+FFFD);
/// the result on other input is named `utf8_lossy_invalid` and not stated further.
#[verifier::external_body]
pub(crate) fn lossy_string(b: &[u8]) -> (s: String)
    ensures
        s@ == utf8_lossy(b@),
        !vstd::utf8::valid_utf8(b@) ==> s@ == utf8_lossy_invalid(b@),
{
    String::from_utf8_lossy(b).into_owned()
}

/// The UTF-8 encoding of `v[i..j]`.
pub fn utf8_of_range(v: &Vec<char>, i: usize, j: usize) -> (b: Vec<u8>)
    requires
        i <= j <= v@.len(),
    ensures
        b@ == vstd::utf8::encode_utf8(v@.subrange(i as int, j as int)),
{
    let s = string_of_range(v, i, j);
    let bytes = s.as_str().as_bytes();
    vstd::slice::slice_to_vec(bytes)
}

/// The strings of a list of index ranges into `v`, from the `from`-th on.
pub fn strings_of_ranges(v: &Vec<char>, rs: &Vec<(usize, usize)>, from: usize) -> (r: Vec<String>)
    requires
        forall|k: int| 0 <= k < rs@.len() ==> (#[trigger] rs@[k]).0 <= rs@[k].1 <= v@.len(),
        from <= rs@.len(),
    ensures
        r@.map_values(|x: String| x@) == range_texts(v@, rs@).subrange(from as int, rs@.len() as int),
{
    let mut r: Vec<String> = Vec::new();
    let mut k = from;
    while k < rs.len()
        invariant
            forall|m: int| 0 <= m < rs@.len() ==> (#[trigger] rs@[m]).0 <= rs@[m].1 <= v@.len(),
            from <= k <= rs@.len(),
            r@.map_values(|x: String| x@) == range_texts(v@, rs@).subrange(from as int, k as int),
        decreases rs@.len() - k,
    {
        let (a, b) = rs[k];
        let t = string_of_range(v, a, b);
        let ghost old_r = r@;
        r.push(t);
        assert(r@.map_values(|x: String| x@) == old_r.map_values(|x: String| x@).push(t@));
        assert(range_texts(v@, rs@).subrange(from as int, k + 1) == range_texts(v@, rs@).subrange(
            from as int,
            k as int,
        ).push(range_texts(v@, rs@)[k as int]));
        k = k + 1;
    }
    r
}

/// Whether the characters `p` are a prefix of the characters `s`.
pub fn has_prefix_chars(s: &Vec<char>, p: &Vec<char>) -> (r: bool)
    ensures
        r == has_prefix(s@, p@),
{
    if p.len() > s.len() {
        return false;
    }
    let mut k: usize = 0;
    while k < p.len()
        invariant
            p@.len() <= s@.len(),
            k <= p@.len(),
            forall|m: int| 0 <= m < k ==> s@[m] == p@[m],
        decreases p@.len() - k,
    {
        if s[k] != p[k] {
            assert(s@.subrange(0, p@.len() as int)[k as int] != p@[k as int]);
            return false;
        }
        k = k + 1;
    }
    assert(s@.subrange(0, p@.len() as int) == p@);
    true
}

/// Whether `p` occurs in `s` at index `k`.
pub open spec fn matches_at(s: Seq<char>, p: Seq<char>, k: int) -> bool {
    0 <= k && k + p.len() <= s.len() && s.subrange(k, k + p.len()) == p
}

/// The first index `k >= i` at which `p` occurs in `s`, or -1.
pub open spec fn find_sub(s: Seq<char>, p: Seq<char>, i: int) -> int
    decreases s.len() + 1 - i,
{
    if i < 0 || i + p.len() > s.len() {
        -1
    } else if matches_at(s, p, i) {
        i
    } else {
        find_sub(s, p, i + 1)
    }
}

/// `str::contains` with a string pattern.
pub open spec fn contains_sub(s: Seq<char>, p: Seq<char>) -> bool {
    find_sub(s, p, 0) >= 0
}

pub proof fn lemma_find_sub(s: Seq<char>, p: Seq<char>, i: int)
    requires
        0 <= i,
    ensures
        find_sub(s, p, i) == -1 || (i <= find_sub(s, p, i) && matches_at(s, p, find_sub(s, p, i))),
    decreases s.len() + 1 - i,
{
    if i + p.len() > s.len() {
    } else if matches_at(s, p, i) {
    } else {
        lemma_find_sub(s, p, i + 1);
    }
}

fn matches_at_exec(v: &Vec<char>, p: &Vec<char>, k: usize) -> (r: bool)
    requires
        k + p@.len() <= v@.len(),
    ensures
        r == matches_at(v@, p@, k as int),
{
    let mut m: usize = 0;
    while m < p.len()
        invariant
            k + p@.len() <= v@.len(),
            m <= p@.len(),
            forall|j: int| 0 <= j < m ==> v@[k + j] == p@[j],
        decreases p@.len() - m,
    {
        assert(k + m < v@.len());
        assert(v@.len() == v.len());
        let idx: usize = k + m;
        if v[idx] != p[m] {
            assert(v@.subrange(k as int, k + p@.len())[m as int] != p@[m as int]);
            return false;
        }
        m = m + 1;
    }
    assert(v@.subrange(k as int, k + p@.len()) == p@);
    true
}

/// The first index at or after `i` at which `p` occurs in `v`.
pub fn find_sub_exec(v: &Vec<char>, p: &Vec<char>, i: usize) -> (r: Option<usize>)
    ensures
        match r {
            Some(k) => find_sub(v@, p@, i as int) == k as int,
            None => find_sub(v@, p@, i as int) == -1,
        },
{
    let n = v.len();
    if p.len() > n {
        return None;
    }
    let last = n - p.len();
    if i > last {
        return None;
    }
    let mut k = i;
    loop
        invariant
            p@.len() <= n,
            n == v@.len(),
            last == n - p@.len(),
            i <= k <= last,
            find_sub(v@, p@, k as int) == find_sub(v@, p@, i as int),
        decreases last - k,
    {
        if matches_at_exec(v, p, k) {
            return Some(k);
        }
        if k == last {
            assert(find_sub(v@, p@, k + 1) == -1);
            assert(find_sub(v@, p@, k as int) == find_sub(v@, p@, k + 1));
            return None;
        }
        k = k + 1;
    }
}

/// `str::contains` with a string pattern.
pub fn contains_str(s: &str, p: &str) -> (r: bool)
    ensures
        r == contains_sub(s@, p@),
{
    let v = chars_of(s);
    let pv = chars_of(p);
    match find_sub_exec(&v, &pv, 0) {
        Some(_) => true,
        None => false,
    }
}

} // verus!
