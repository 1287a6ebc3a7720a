//! Facts about the text scanners of `text`: where they stop on texts of a
//! known shape, and how whitespace tokens split and shift.
use vstd::prelude::*;
use crate::text::{
    decimal, digit_char, digits_value, all_digits, is_digit, find_char, find_crlf, is_ws, join,
    lemma_skip_text, lemma_skip_ws, parse_uint, skip_text, skip_ws, trim_end_at, ws_tokens,
    tokens,
};

verus! {

pub proof fn lemma_skip_ws_at(s: Seq<char>, i: int, j: int, e: int)
    requires
        i <= e <= j,
        forall|k: int| i <= k < e ==> is_ws(#[trigger] s[k]),
        e == j || !is_ws(s[e]),
    ensures
        skip_ws(s, i, j) == e,
    decreases e - i,
{
    if i < e {
        lemma_skip_ws_at(s, i + 1, j, e);
    }
}

pub proof fn lemma_skip_text_at(s: Seq<char>, i: int, j: int, e: int)
    requires
        i <= e <= j,
        forall|k: int| i <= k < e ==> !is_ws(#[trigger] s[k]),
        e == j || is_ws(s[e]),
    ensures
        skip_text(s, i, j) == e,
    decreases e - i,
{
    if i < e {
        lemma_skip_text_at(s, i + 1, j, e);
    }
}

pub proof fn lemma_trim_end_at_at(s: Seq<char>, i: int, j: int, e: int)
    requires
        i <= e <= j,
        forall|k: int| e <= k < j ==> is_ws(#[trigger] s[k]),
        e == i || !is_ws(s[e - 1]),
    ensures
        trim_end_at(s, i, j) == e,
    decreases j - e,
{
    if e < j {
        lemma_trim_end_at_at(s, i, j - 1, e);
    }
}

pub proof fn lemma_find_char_at(s: Seq<char>, c: char, i: int, j: int, e: int)
    requires
        i <= e <= j,
        forall|k: int| i <= k < e ==> #[trigger] s[k] != c,
        e == j || s[e] == c,
    ensures
        find_char(s, c, i, j) == e,
    decreases e - i,
{
    if i < e {
        lemma_find_char_at(s, c, i + 1, j, e);
    }
}

/// No CRLF starts in `[i, e)`.
pub open spec fn no_crlf_in(s: Seq<char>, i: int, e: int) -> bool {
    forall|k: int| i <= k < e && k + 1 < s.len() ==> !(#[trigger] s[k] == '\r' && s[k + 1] == '\n')
}

pub proof fn lemma_find_crlf_at(s: Seq<char>, i: int, e: int)
    requires
        0 <= i <= e,
        e + 1 < s.len(),
        s[e] == '\r',
        s[e + 1] == '\n',
        no_crlf_in(s, i, e),
    ensures
        find_crlf(s, i) == e,
    decreases e - i,
{
    if i < e {
        assert(!(s[i] == '\r' && s[i + 1] == '\n'));
        lemma_find_crlf_at(s, i + 1, e);
    }
}

pub proof fn lemma_find_crlf_none(s: Seq<char>, i: int)
    requires
        0 <= i <= s.len(),
        no_crlf_in(s, i, s.len() as int),
    ensures
        find_crlf(s, i) == s.len(),
    decreases s.len() - i,
{
    if i + 1 < s.len() {
        assert(!(s[i] == '\r' && s[i + 1] == '\n'));
        lemma_find_crlf_none(s, i + 1);
    }
}

/// A non-empty text without whitespace.
pub open spec fn is_token(t: Seq<char>) -> bool {
    t.len() > 0 && forall|k: int| 0 <= k < t.len() ==> !is_ws(#[trigger] t[k])
}

pub proof fn lemma_ws_tokens_empty(s: Seq<char>, i: int, j: int)
    requires
        i <= j,
        forall|k: int| i <= k < j ==> is_ws(#[trigger] s[k]),
    ensures
        ws_tokens(s, i, j) == Seq::<Seq<char>>::empty(),
{
    if i < j {
        lemma_skip_ws_at(s, i, j, j);
    }
}

/// Tokens split at a whitespace character (or at either end).
pub proof fn lemma_ws_tokens_split(s: Seq<char>, i: int, m: int, j: int)
    requires
        i <= m <= j,
        m == i || m == j || is_ws(s[m]),
    ensures
        ws_tokens(s, i, j) == ws_tokens(s, i, m) + ws_tokens(s, m, j),
    decreases j - i,
{
    if m == j {
        assert(ws_tokens(s, m, j) == Seq::<Seq<char>>::empty());
        assert(ws_tokens(s, i, j) + Seq::<Seq<char>>::empty() == ws_tokens(s, i, j));
        return;
    }
    if m == i {
        assert(ws_tokens(s, i, m) == Seq::<Seq<char>>::empty());
        assert(Seq::<Seq<char>>::empty() + ws_tokens(s, m, j) == ws_tokens(s, m, j));
        return;
    }
    lemma_skip_ws(s, i, j);
    let a = skip_ws(s, i, j);
    if a >= j {
        lemma_ws_tokens_empty(s, i, m);
        lemma_ws_tokens_empty(s, m, j);
        assert(Seq::<Seq<char>>::empty() + Seq::<Seq<char>>::empty() == Seq::<Seq<char>>::empty());
        return;
    }
    if a >= m {
        lemma_ws_tokens_empty(s, i, m);
        lemma_skip_ws_at(s, m, j, a);
        assert(Seq::<Seq<char>>::empty() + ws_tokens(s, m, j) == ws_tokens(s, m, j));
        return;
    }
    lemma_skip_text(s, a, j);
    let b = skip_text(s, a, j);
    assert(b <= m);
    lemma_skip_ws_at(s, i, m, a);
    lemma_skip_text_at(s, a, m, b);
    lemma_ws_tokens_split(s, b, m, j);
    assert(ws_tokens(s, i, j) == seq![s.subrange(a, b)] + ws_tokens(s, b, j));
    assert(ws_tokens(s, i, m) == seq![s.subrange(a, b)] + ws_tokens(s, b, m));
}

/// Tokens of a region do not depend on what lies outside it.
pub proof fn lemma_ws_tokens_shift(s: Seq<char>, t: Seq<char>, off: int, i: int, j: int)
    requires
        0 <= i <= j <= t.len(),
        0 <= off,
        off + t.len() <= s.len(),
        forall|k: int| i <= k < j ==> s[off + k] == #[trigger] t[k],
    ensures
        ws_tokens(s, off + i, off + j) == ws_tokens(t, i, j),
    decreases j - i,
{
    if i >= j {
        return;
    }
    lemma_skip_ws(t, i, j);
    let a = skip_ws(t, i, j);
    assert forall|k: int| off + i <= k < off + a implies is_ws(#[trigger] s[k]) by {
        assert(s[off + (k - off)] == t[k - off]);
    }
    if a < j {
        assert(s[off + a] == t[a]);
    }
    lemma_skip_ws_at(s, off + i, off + j, off + a);
    if a >= j {
        return;
    }
    lemma_skip_text(t, a, j);
    let b = skip_text(t, a, j);
    assert forall|k: int| off + a <= k < off + b implies !is_ws(#[trigger] s[k]) by {
        assert(s[off + (k - off)] == t[k - off]);
    }
    if b < j {
        assert(s[off + b] == t[b]);
    }
    lemma_skip_text_at(s, off + a, off + j, off + b);
    lemma_ws_tokens_shift(s, t, off, b, j);
    assert(s.subrange(off + a, off + b) == t.subrange(a, b));
}

/// The tokens of a whole text that lies at `off` in `s`.
pub proof fn lemma_tokens_at(s: Seq<char>, t: Seq<char>, off: int)
    requires
        0 <= off,
        off + t.len() <= s.len(),
        s.subrange(off, off + t.len()) == t,
    ensures
        ws_tokens(s, off, off + t.len()) == tokens(t),
{
    assert forall|k: int| 0 <= k < t.len() implies s[off + k] == #[trigger] t[k] by {
        assert(s.subrange(off, off + t.len())[k] == t[k]);
    }
    lemma_ws_tokens_shift(s, t, off, 0, t.len() as int);
}

/// A token followed by whitespace is the first token.
pub proof fn lemma_ws_tokens_first(s: Seq<char>, i: int, m: int, j: int)
    requires
        i < m <= j,
        forall|k: int| i <= k < m ==> !is_ws(#[trigger] s[k]),
        m == j || is_ws(s[m]),
    ensures
        ws_tokens(s, i, j) == seq![s.subrange(i, m)] + ws_tokens(s, m, j),
{
    lemma_skip_ws_at(s, i, j, i);
    lemma_skip_text_at(s, i, j, m);
}

/// Leading whitespace does not change the tokens.
pub proof fn lemma_ws_tokens_skip(s: Seq<char>, i: int, j: int)
    requires
        i < j,
        is_ws(s[i]),
    ensures
        ws_tokens(s, i, j) == ws_tokens(s, i + 1, j),
{
    lemma_skip_ws(s, i + 1, j);
    let a = skip_ws(s, i + 1, j);
    assert forall|k: int| i <= k < a implies is_ws(#[trigger] s[k]) by {
        if k > i {
        }
    }
    lemma_skip_ws_at(s, i, j, a);
}

/// The tokens of tokens joined by single spaces are those tokens.
pub proof fn lemma_tokens_of_join(ts: Seq<Seq<char>>)
    requires
        forall|k: int| 0 <= k < ts.len() ==> is_token(#[trigger] ts[k]),
    ensures
        tokens(join(ts, seq![' '])) == ts,
    decreases ts.len(),
{
    let t = join(ts, seq![' ']);
    if ts.len() == 0 {
        assert(tokens(t) == Seq::<Seq<char>>::empty());
    } else if ts.len() == 1 {
        let x = ts[0];
        lemma_ws_tokens_first(x, 0, x.len() as int, x.len() as int);
        assert(x.subrange(0, x.len() as int) == x);
    } else {
        let p = ts.drop_last();
        let a = join(p, seq![' ']);
        let b = ts.last();
        assert(is_token(b)) by {
            assert(b == ts[ts.len() - 1]);
        }
        lemma_tokens_of_join(p);
        assert(t == a + seq![' '] + b);
        let m = a.len() as int;
        assert(t[m] == ' ');
        assert(is_ws(' '));
        lemma_ws_tokens_split(t, 0, m, t.len() as int);
        assert(t.subrange(0, m) == a);
        lemma_tokens_at(t, a, 0);
        lemma_ws_tokens_skip(t, m, t.len() as int);
        assert forall|k: int| m + 1 <= k < t.len() implies !is_ws(#[trigger] t[k]) by {
            assert(t[k] == b[k - m - 1]);
        }
        lemma_ws_tokens_first(t, m + 1, t.len() as int, t.len() as int);
        assert(t.subrange(m + 1, t.len() as int) == b);
        assert(ws_tokens(t, t.len() as int, t.len() as int) == Seq::<Seq<char>>::empty());
        assert(p.push(b) == ts);
    }
}

pub proof fn lemma_digit_char(d: nat)
    requires
        d < 10,
    ensures
        is_digit(digit_char(d)),
        (digit_char(d) as u32) - 48 == d,
        !is_ws(digit_char(d)),
        digit_char(d) != '+',
{
    assert(((48 + d) as char) as u32 == 48 + d);
}

/// A decimal numeral parses back to its value.
pub proof fn lemma_decimal(n: nat)
    ensures
        decimal(n).len() > 0,
        all_digits(decimal(n)),
        digits_value(decimal(n)) == n,
        decimal(n)[0] != '+',
        is_token(decimal(n)),
    decreases n,
{
    if n < 10 {
        lemma_digit_char(n);
        assert(decimal(n).drop_last() == Seq::<char>::empty());
        assert(decimal(n).last() == digit_char(n));
        assert(digits_value(decimal(n)) == digits_value(Seq::<char>::empty()) * 10 + ((digit_char(n) as u32) - 48) as nat);
    } else {
        lemma_decimal(n / 10);
        lemma_digit_char(n % 10);
        let p = decimal(n / 10);
        let d = decimal(n);
        assert(d == p.push(digit_char(n % 10)));
        assert(d.drop_last() == p);
        assert(d.last() == digit_char(n % 10));
        assert(digits_value(d) == digits_value(p) * 10 + ((digit_char(n % 10) as u32) - 48) as nat);
        assert(digits_value(d) == (n / 10) * 10 + n % 10);
        assert(d[0] == p[0]);
        assert forall|k: int| 0 <= k < d.len() implies is_digit(#[trigger] d[k]) by {
            if k < p.len() {
                assert(d[k] == p[k]);
            }
        }
        assert forall|k: int| 0 <= k < d.len() implies !is_ws(#[trigger] d[k]) by {
            if k < p.len() {
                assert(d[k] == p[k]);
                assert(is_digit(p[k]));
            }
        }
    }
}

pub proof fn lemma_parse_decimal(n: nat, max: nat)
    requires
        n <= max,
    ensures
        parse_uint(decimal(n), max) == Some(n),
{
    lemma_decimal(n);
}

} // verus!
