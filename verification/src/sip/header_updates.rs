//! What reading a header gives back after `set_header` and `add_header`.
use vstd::prelude::*;
use crate::sip::{header_index, header_set, header_value, header_values, lemma_header_index};
use crate::text::{ascii_lower, eq_ignore_case};

verus! {

/// Comparing names up to ASCII case is reflexive.
pub proof fn lemma_eq_ignore_case_refl(a: Seq<char>)
    ensures
        eq_ignore_case(a, a),
{
}

/// Two names that both equal a third up to ASCII case equal each other.
pub proof fn lemma_eq_ignore_case_join(a: Seq<char>, n: Seq<char>, m: Seq<char>)
    requires
        eq_ignore_case(a, n),
        eq_ignore_case(a, m),
    ensures
        eq_ignore_case(n, m),
{
    assert forall|k: int| 0 <= k < n.len() implies ascii_lower(#[trigger] n[k]) == ascii_lower(
        m[k],
    ) by {
        assert(ascii_lower(a[k]) == ascii_lower(n[k]));
        assert(ascii_lower(a[k]) == ascii_lower(m[k]));
    }
}

/// Header lists with the same names, position by position, find a name at
/// the same index.
proof fn lemma_index_same_names(
    hs: Seq<(Seq<char>, Seq<char>)>,
    gs: Seq<(Seq<char>, Seq<char>)>,
    name: Seq<char>,
    i: int,
)
    requires
        0 <= i,
        hs.len() == gs.len(),
        forall|j: int| 0 <= j < hs.len() ==> (#[trigger] hs[j]).0 == gs[j].0,
    ensures
        header_index(hs, name, i) == header_index(gs, name, i),
    decreases hs.len() - i,
{
    if i < hs.len() {
        assert(hs[i].0 == gs[i].0);
        lemma_index_same_names(hs, gs, name, i + 1);
    }
}

/// Appending a header leaves an earlier match where it was; otherwise the
/// new header is found when its name matches.
proof fn lemma_index_push(
    hs: Seq<(Seq<char>, Seq<char>)>,
    p: (Seq<char>, Seq<char>),
    name: Seq<char>,
    i: int,
)
    requires
        0 <= i <= hs.len(),
    ensures
        header_index(hs, name, i) < hs.len() ==> header_index(hs.push(p), name, i)
            == header_index(hs, name, i),
        header_index(hs, name, i) == hs.len() ==> header_index(hs.push(p), name, i) == (if eq_ignore_case(
            p.0,
            name,
        ) {
            hs.len() as int
        } else {
            hs.len() + 1int
        }),
    decreases hs.len() - i,
{
    let gs = hs.push(p);
    if i < hs.len() {
        assert(gs[i] == hs[i]);
        lemma_index_push(hs, p, name, i + 1);
    } else {
        assert(gs[i] == p);
        assert(header_index(gs, name, i + 1) == gs.len());
    }
}

/// After `set_header(name, value)`, reading `name` gives `value`.
pub proof fn lemma_set_then_get(hs: Seq<(Seq<char>, Seq<char>)>, name: Seq<char>, value: Seq<char>)
    ensures
        header_value(header_set(hs, name, value), name) == Some(value),
{
    lemma_header_index(hs, name, 0);
    let k = header_index(hs, name, 0);
    let gs = header_set(hs, name, value);
    if k < hs.len() {
        lemma_index_same_names(hs, gs, name, 0);
    } else {
        lemma_eq_ignore_case_refl(name);
        lemma_index_push(hs, (name, value), name, 0);
    }
}

/// `set_header(name, ..)` leaves what every other name reads unchanged.
pub proof fn lemma_set_keeps_others(
    hs: Seq<(Seq<char>, Seq<char>)>,
    name: Seq<char>,
    value: Seq<char>,
    other: Seq<char>,
)
    requires
        !eq_ignore_case(name, other),
    ensures
        header_value(header_set(hs, name, value), other) == header_value(hs, other),
{
    lemma_header_index(hs, name, 0);
    lemma_header_index(hs, other, 0);
    let k = header_index(hs, name, 0);
    let j = header_index(hs, other, 0);
    let gs = header_set(hs, name, value);
    if k < hs.len() {
        lemma_index_same_names(hs, gs, other, 0);
        if j == k {
            lemma_eq_ignore_case_join(hs[k].0, name, other);
        }
    } else {
        lemma_index_push(hs, (name, value), other, 0);
    }
}

/// Setting a header twice to the same value is the same as setting it once.
pub proof fn lemma_set_idempotent(hs: Seq<(Seq<char>, Seq<char>)>, name: Seq<char>, value: Seq<char>)
    ensures
        header_set(header_set(hs, name, value), name, value) == header_set(hs, name, value),
{
    lemma_header_index(hs, name, 0);
    let k = header_index(hs, name, 0);
    let gs = header_set(hs, name, value);
    if k < hs.len() {
        lemma_index_same_names(hs, gs, name, 0);
        assert(gs.update(k, (gs[k].0, value)) == gs);
    } else {
        lemma_eq_ignore_case_refl(name);
        lemma_index_push(hs, (name, value), name, 0);
        assert(gs.update(hs.len() as int, (gs[hs.len() as int].0, value)) == gs);
    }
}

/// `set_header` adds a header only when none of that name was there.
pub proof fn lemma_set_len(hs: Seq<(Seq<char>, Seq<char>)>, name: Seq<char>, value: Seq<char>)
    ensures
        header_set(hs, name, value).len() == hs.len() + (if header_value(hs, name) is Some {
            0int
        } else {
            1int
        }),
{
    lemma_header_index(hs, name, 0);
}

/// After `add_header(name, value)`, the values of `name` are the earlier
/// ones followed by `value`.
pub proof fn lemma_add_then_get_all(
    hs: Seq<(Seq<char>, Seq<char>)>,
    name: Seq<char>,
    value: Seq<char>,
)
    ensures
        header_values(hs.push((name, value)), name) == header_values(hs, name).push(value),
{
    lemma_eq_ignore_case_refl(name);
    assert(hs.push((name, value)).drop_last() == hs);
}

/// `add_header` keeps what a name read before; a name that read nothing
/// reads the added value when it matches.
pub proof fn lemma_add_then_get(
    hs: Seq<(Seq<char>, Seq<char>)>,
    name: Seq<char>,
    value: Seq<char>,
    other: Seq<char>,
)
    ensures
        header_value(hs.push((name, value)), other) == (match header_value(hs, other) {
            Some(v) => Some(v),
            None => if eq_ignore_case(name, other) {
                Some(value)
            } else {
                None
            },
        }),
{
    lemma_header_index(hs, other, 0);
    lemma_index_push(hs, (name, value), other, 0);
}

/// The values of a name in two header lists one after the other are the
/// values in the first list followed by those in the second.
pub proof fn lemma_values_concat(
    a: Seq<(Seq<char>, Seq<char>)>,
    b: Seq<(Seq<char>, Seq<char>)>,
    name: Seq<char>,
)
    ensures
        header_values(a + b, name) == header_values(a, name) + header_values(b, name),
    decreases b.len(),
{
    if b.len() == 0 {
        assert(a + b == a);
        assert(header_values(b, name) == Seq::<Seq<char>>::empty());
        assert(header_values(a, name) + Seq::<Seq<char>>::empty() == header_values(a, name));
    } else {
        assert((a + b).drop_last() == a + b.drop_last());
        assert((a + b).last() == b.last());
        lemma_values_concat(a, b.drop_last(), name);
        let x = header_values(a, name);
        let y = header_values(b.drop_last(), name);
        assert((x + y).push(b.last().1) == x + y.push(b.last().1));
    }
}

/// Appending a header of another name leaves the values of `name` as they were.
pub proof fn lemma_add_other_keeps_values(
    hs: Seq<(Seq<char>, Seq<char>)>,
    n: Seq<char>,
    v: Seq<char>,
    name: Seq<char>,
)
    requires
        !eq_ignore_case(n, name),
    ensures
        header_values(hs.push((n, v)), name) == header_values(hs, name),
{
    assert(hs.push((n, v)).drop_last() == hs);
}

/// A list holds as many values of `name` as it has headers of that name,
/// and each value is that of such a header.
pub proof fn lemma_values_from_headers(hs: Seq<(Seq<char>, Seq<char>)>, name: Seq<char>)
    ensures
        header_values(hs, name).len() <= hs.len(),
        forall|k: int|
            0 <= k < hs.len() && eq_ignore_case(#[trigger] hs[k].0, name) ==> header_values(
                hs,
                name,
            ).contains(hs[k].1),
    decreases hs.len(),
{
    if hs.len() > 0 {
        let p = hs.drop_last();
        lemma_values_from_headers(p, name);
        let r = header_values(p, name);
        assert forall|k: int|
            0 <= k < hs.len() && eq_ignore_case(#[trigger] hs[k].0, name) implies header_values(
            hs,
            name,
        ).contains(hs[k].1) by {
            if k < hs.len() - 1 {
                assert(p[k] == hs[k]);
                assert(r.contains(hs[k].1));
                let i = choose|i: int| 0 <= i < r.len() && r[i] == hs[k].1;
                if eq_ignore_case(hs.last().0, name) {
                    assert(r.push(hs.last().1)[i] == hs[k].1);
                }
            } else {
                assert(hs.last() == hs[k]);
                assert(r.push(hs.last().1)[r.len() as int] == hs[k].1);
            }
        }
    }
}

} // verus!
