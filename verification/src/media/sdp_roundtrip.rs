//! What parsing gives back of the text a session description is written as.
use vstd::prelude::*;
use crate::media::sdp::{
    attributes_text, crlf, flush_current, line_end, media_text, medias_text, new_session,
    parse_session_text, sdp_lines, sdp_step, session_text, SdpMediaView, SdpParseState,
    SdpSessionView,
};
use crate::text::{decimal, find_char, join, lemma_find_char, parse_uint, tokens, ws_tokens};
use crate::text_facts::{
    is_token, lemma_decimal, lemma_find_char_at, lemma_parse_decimal, lemma_tokens_at,
    lemma_tokens_of_join, lemma_ws_tokens_shift,
};

verus! {

/// A text that fits on one line: no `\n` in it.
pub open spec fn one_line(t: Seq<char>) -> bool {
    forall|k: int| 0 <= k < t.len() ==> #[trigger] t[k] != '\n'
}

/// Lines, each followed by CRLF.
pub open spec fn lines_text(ls: Seq<Seq<char>>) -> Seq<char>
    decreases ls.len(),
{
    if ls.len() == 0 {
        seq![]
    } else {
        lines_text(ls.drop_last()) + ls.last() + crlf()
    }
}

/// One line read on its own.
pub open spec fn line_step(l: Seq<char>, st: SdpParseState) -> Option<SdpParseState> {
    sdp_step(l, 0, l.len() as int, st)
}

/// Lines read in order, from state `st`.
pub open spec fn apply_lines(ls: Seq<Seq<char>>, st: SdpParseState) -> Option<SdpParseState>
    decreases ls.len(),
{
    if ls.len() == 0 {
        Some(st)
    } else {
        match line_step(ls[0], st) {
            None => None,
            Some(st2) => apply_lines(ls.drop_first(), st2),
        }
    }
}

proof fn lemma_lines_text_concat(a: Seq<Seq<char>>, b: Seq<Seq<char>>)
    ensures
        lines_text(a + b) == lines_text(a) + lines_text(b),
    decreases b.len(),
{
    if b.len() == 0 {
        assert(a + b == a);
        assert(lines_text(a) + Seq::<char>::empty() == lines_text(a));
    } else {
        assert((a + b).drop_last() == a + b.drop_last());
        assert((a + b).last() == b.last());
        lemma_lines_text_concat(a, b.drop_last());
        assert(lines_text(a + b) == lines_text(a) + lines_text(b.drop_last()) + b.last() + crlf());
        assert(lines_text(a) + lines_text(b.drop_last()) + b.last() + crlf() == lines_text(a) + (
        lines_text(b.drop_last()) + b.last() + crlf()));
    }
}

proof fn lemma_apply_concat(a: Seq<Seq<char>>, b: Seq<Seq<char>>, st: SdpParseState)
    ensures
        apply_lines(a + b, st) == (match apply_lines(a, st) {
            None => None,
            Some(st2) => apply_lines(b, st2),
        }),
    decreases a.len(),
{
    if a.len() == 0 {
        assert(a + b == b);
    } else {
        assert((a + b)[0] == a[0]);
        assert((a + b).drop_first() == a.drop_first() + b);
        match line_step(a[0], st) {
            None => {},
            Some(st2) => {
                lemma_apply_concat(a.drop_first(), b, st2);
            },
        }
    }
}

proof fn lemma_find_char_shift(t: Seq<char>, l: Seq<char>, c: char, off: int, i: int, j: int)
    requires
        0 <= i <= j <= l.len(),
        forall|k: int| i <= k < j ==> t[off + k] == #[trigger] l[k],
    ensures
        find_char(t, c, off + i, off + j) == off + find_char(l, c, i, j),
    decreases j - i,
{
    if i < j {
        assert(t[off + i] == l[i]);
        lemma_find_char_shift(t, l, c, off, i + 1, j);
    }
}

/// A line inside a text reads as the same line on its own.
proof fn lemma_step_shift(t: Seq<char>, a: int, b: int, st: SdpParseState)
    requires
        0 <= a <= b <= t.len(),
    ensures
        sdp_step(t, a, b, st) == line_step(t.subrange(a, b), st),
{
    let l = t.subrange(a, b);
    if a < b {
        assert forall|k: int| 0 <= k < l.len() implies t[a + k] == #[trigger] l[k] by {}
        lemma_find_char_shift(t, l, '=', a, 0, l.len() as int);
        lemma_find_char(l, '=', 0, l.len() as int);
        let q = find_char(l, '=', 0, l.len() as int);
        assert(find_char(t, '=', a, b) == a + q);
        assert(t[a] == l[0]);
        if q < l.len() {
            assert(t.subrange(a + q + 1, b) == l.subrange(q + 1, l.len() as int));
            lemma_ws_tokens_shift(t, l, a, q + 1, l.len() as int);
        }
    }
}

/// Reading lines that stand from `pos` to the end of a text.
proof fn lemma_sdp_lines(t: Seq<char>, pos: int, ls: Seq<Seq<char>>, st: SdpParseState)
    requires
        0 <= pos <= t.len(),
        t.subrange(pos, t.len() as int) == lines_text(ls),
        forall|k: int| 0 <= k < ls.len() ==> one_line(#[trigger] ls[k]),
    ensures
        sdp_lines(t, pos, st) == apply_lines(ls, st),
    decreases ls.len(),
{
    if ls.len() == 0 {
        assert(t.subrange(pos, t.len() as int).len() == 0);
    } else {
        let l0 = ls[0];
        let rest = ls.drop_first();
        assert(ls == seq![l0] + rest);
        lemma_lines_text_concat(seq![l0], rest);
        assert(seq![l0].drop_last() == Seq::<Seq<char>>::empty());
        assert(lines_text(Seq::<Seq<char>>::empty()) == Seq::<char>::empty());
        assert(Seq::<char>::empty() + l0 == l0);
        assert(lines_text(seq![l0]) == l0 + crlf());
        let u = t.subrange(pos, t.len() as int);
        assert(u == l0 + crlf() + lines_text(rest));
        let n = l0.len() as int;
        assert(u.len() == t.len() - pos);
        assert(u.len() == n + 2 + lines_text(rest).len());
        assert(one_line(ls[0]));
        assert forall|k: int| pos <= k < pos + n + 1 implies #[trigger] t[k] != '\n' by {
            assert(t[k] == u[k - pos]);
            if k < pos + n {
                assert(u[k - pos] == l0[k - pos]);
            } else {
                assert(u[k - pos] == '\r');
            }
        }
        assert(t[pos + n] == u[n]);
        assert(t[pos + n + 1] == u[n + 1]);
        assert(u[n + 1] == '\n');
        lemma_find_char_at(t, '\n', pos, t.len() as int, pos + n + 1);
        assert(line_end(t, pos, pos + n + 1) == pos + n);
        lemma_step_shift(t, pos, pos + n, st);
        assert(t.subrange(pos, pos + n) == l0);
        assert(apply_lines(ls, st) == (match line_step(l0, st) {
            None => None,
            Some(st2) => apply_lines(rest, st2),
        }));
        match line_step(l0, st) {
            None => {},
            Some(st2) => {
                assert(u.subrange(n + 2, u.len() as int) == lines_text(rest));
                assert(t.subrange(pos + n + 2, t.len() as int) == u.subrange(n + 2, u.len() as int));
                assert forall|k: int| 0 <= k < rest.len() implies one_line(#[trigger] rest[k]) by {
                    assert(rest[k] == ls[k + 1]);
                }
                lemma_sdp_lines(t, pos + n + 2, rest, st2);
            },
        }
    }
}

/// The `m=` line of a media description.
pub open spec fn media_line(m: SdpMediaView) -> Seq<char> {
    seq!['m', '='] + join(
        seq![m.media_type, decimal(m.port as nat), m.transport] + m.formats,
        seq![' '],
    )
}

/// The `a=` lines of a list of attributes.
pub open spec fn attribute_lines(a: Seq<Seq<char>>) -> Seq<Seq<char>> {
    a.map_values(|x: Seq<char>| seq!['a', '='] + x)
}

/// The lines of one media description.
pub open spec fn media_lines(m: SdpMediaView) -> Seq<Seq<char>> {
    seq![media_line(m)] + attribute_lines(m.attributes)
}

/// The lines of a list of media descriptions.
pub open spec fn medias_lines(ms: Seq<SdpMediaView>) -> Seq<Seq<char>>
    decreases ms.len(),
{
    if ms.len() == 0 {
        seq![]
    } else {
        medias_lines(ms.drop_last()) + media_lines(ms.last())
    }
}

/// The session-level lines: version, owner, name, connection and time.
pub open spec fn head_lines(s: SdpSessionView) -> Seq<Seq<char>> {
    seq![
        seq!['v', '='] + decimal(s.version as nat),
        seq!['o', '='] + s.owner,
        seq!['s', '='] + s.session_name,
        seq!['c', '='] + s.connection_info,
        seq!['t', '='] + s.time_description,
    ]
}

/// What a media description needs for its text to read back as itself:
/// type, transport and formats are single tokens, there is at least one
/// format, and no attribute holds a line break.
pub open spec fn media_writable(m: SdpMediaView) -> bool {
    &&& is_token(m.media_type)
    &&& is_token(m.transport)
    &&& m.formats.len() > 0
    &&& forall|k: int| 0 <= k < m.formats.len() ==> is_token(#[trigger] m.formats[k])
    &&& forall|k: int| 0 <= k < m.attributes.len() ==> one_line(#[trigger] m.attributes[k])
}

/// What a session needs for its text to read back as itself: no line break
/// in its text fields, and media that are writable.
pub open spec fn session_writable(s: SdpSessionView) -> bool {
    &&& one_line(s.owner)
    &&& one_line(s.session_name)
    &&& one_line(s.connection_info)
    &&& one_line(s.time_description)
    &&& forall|k: int| 0 <= k < s.media.len() ==> media_writable(#[trigger] s.media[k])
}

proof fn lemma_join_concat(a: Seq<Seq<char>>, b: Seq<Seq<char>>, sep: Seq<char>)
    requires
        a.len() > 0,
        b.len() > 0,
    ensures
        join(a + b, sep) == join(a, sep) + sep + join(b, sep),
    decreases b.len(),
{
    if b.len() == 1 {
        assert((a + b).drop_last() == a);
        assert((a + b).last() == b[0]);
    } else {
        assert((a + b).drop_last() == a + b.drop_last());
        assert((a + b).last() == b.last());
        lemma_join_concat(a, b.drop_last(), sep);
        assert(join(a, sep) + sep + join(b.drop_last(), sep) + sep + b.last() == join(a, sep) + sep + (
        join(b.drop_last(), sep) + sep + b.last()));
    }
}

proof fn lemma_join_one_line(ts: Seq<Seq<char>>)
    requires
        forall|k: int| 0 <= k < ts.len() ==> is_token(#[trigger] ts[k]),
    ensures
        one_line(join(ts, seq![' '])),
    decreases ts.len(),
{
    if ts.len() == 1 {
        assert(is_token(ts[0]));
    } else if ts.len() > 1 {
        let p = ts.drop_last();
        assert forall|k: int| 0 <= k < p.len() implies is_token(#[trigger] p[k]) by {
            assert(p[k] == ts[k]);
        }
        lemma_join_one_line(p);
        assert(is_token(ts[ts.len() - 1]));
        let j = join(ts, seq![' ']);
        let jp = join(p, seq![' ']);
        assert(j == jp + seq![' '] + ts.last());
        assert forall|k: int| 0 <= k < j.len() implies #[trigger] j[k] != '\n' by {
            if k < jp.len() {
                assert(j[k] == jp[k]);
            } else if k > jp.len() {
                assert(j[k] == ts.last()[k - jp.len() - 1]);
            }
        }
    }
}

proof fn lemma_attributes_text(a: Seq<Seq<char>>)
    ensures
        attributes_text(a) == lines_text(attribute_lines(a)),
    decreases a.len(),
{
    if a.len() > 0 {
        assert(attribute_lines(a).drop_last() == attribute_lines(a.drop_last()));
        lemma_attributes_text(a.drop_last());
    }
}

proof fn lemma_media_text(m: SdpMediaView)
    requires
        m.formats.len() > 0,
    ensures
        media_text(m) == lines_text(media_lines(m)),
{
    let sp = seq![' '];
    let first = seq![m.media_type, decimal(m.port as nat), m.transport];
    assert(first.drop_last() == seq![m.media_type, decimal(m.port as nat)]);
    assert(seq![m.media_type, decimal(m.port as nat)].drop_last() == seq![m.media_type]);
    let two = seq![m.media_type, decimal(m.port as nat)];
    assert(seq![m.media_type].len() == 1 && seq![m.media_type][0] == m.media_type);
    assert(join(seq![m.media_type], sp) == m.media_type);
    assert(two.last() == decimal(m.port as nat));
    assert(join(two, sp) == m.media_type + sp + decimal(m.port as nat));
    assert(first.last() == m.transport);
    assert(join(first, sp) == m.media_type + sp + decimal(m.port as nat) + sp + m.transport);
    lemma_join_concat(first, m.formats, sp);
    lemma_attributes_text(m.attributes);
    lemma_lines_text_concat(seq![media_line(m)], attribute_lines(m.attributes));
    assert(seq![media_line(m)].drop_last() == Seq::<Seq<char>>::empty());
    assert(lines_text(Seq::<Seq<char>>::empty()) == Seq::<char>::empty());
    assert(Seq::<char>::empty() + media_line(m) == media_line(m));
    assert(media_text(m) == media_line(m) + crlf() + attributes_text(m.attributes));
}

proof fn lemma_medias_text(ms: Seq<SdpMediaView>)
    requires
        forall|k: int| 0 <= k < ms.len() ==> (#[trigger] ms[k]).formats.len() > 0,
    ensures
        medias_text(ms) == lines_text(medias_lines(ms)),
    decreases ms.len(),
{
    if ms.len() > 0 {
        let p = ms.drop_last();
        assert forall|k: int| 0 <= k < p.len() implies (#[trigger] p[k]).formats.len() > 0 by {
            assert(p[k] == ms[k]);
        }
        lemma_medias_text(p);
        assert(ms[ms.len() - 1].formats.len() > 0);
        lemma_media_text(ms.last());
        lemma_lines_text_concat(medias_lines(p), media_lines(ms.last()));
    }
}

proof fn lemma_session_text(s: SdpSessionView)
    requires
        forall|k: int| 0 <= k < s.media.len() ==> (#[trigger] s.media[k]).formats.len() > 0,
    ensures
        session_text(s) == lines_text(head_lines(s) + medias_lines(s.media)),
{
    let h = head_lines(s);
    reveal_with_fuel(lines_text, 6);
    assert(h.drop_last().drop_last().drop_last().drop_last().drop_last() == Seq::<Seq<char>>::empty());
    assert(lines_text(h) == seq!['v', '='] + decimal(s.version as nat) + crlf() + seq!['o', '='] + s.owner + crlf() + seq![
        's',
        '=',
    ] + s.session_name + crlf() + seq!['c', '='] + s.connection_info + crlf() + seq!['t', '=']
        + s.time_description + crlf());
    lemma_medias_text(s.media);
    lemma_lines_text_concat(h, medias_lines(s.media));
}

/// Every line of a media description fits on one line.
proof fn lemma_media_lines_one_line(m: SdpMediaView)
    requires
        media_writable(m),
    ensures
        forall|k: int| 0 <= k < media_lines(m).len() ==> one_line(#[trigger] media_lines(m)[k]),
{
    let parts = seq![m.media_type, decimal(m.port as nat), m.transport] + m.formats;
    lemma_decimal(m.port as nat);
    assert forall|k: int| 0 <= k < parts.len() implies is_token(#[trigger] parts[k]) by {
        if k >= 3 {
            assert(parts[k] == m.formats[k - 3]);
        }
    }
    lemma_join_one_line(parts);
    let ls = media_lines(m);
    assert forall|k: int| 0 <= k < ls.len() implies one_line(#[trigger] ls[k]) by {
        let l = ls[k];
        if k == 0 {
            assert forall|i: int| 0 <= i < l.len() implies #[trigger] l[i] != '\n' by {
                if i >= 2 {
                    assert(l[i] == join(parts, seq![' '])[i - 2]);
                }
            }
        } else {
            let x = m.attributes[k - 1];
            assert(l == seq!['a', '='] + x);
            assert(one_line(x));
            assert forall|i: int| 0 <= i < l.len() implies #[trigger] l[i] != '\n' by {
                if i >= 2 {
                    assert(l[i] == x[i - 2]);
                }
            }
        }
    }
}

proof fn lemma_medias_lines_one_line(ms: Seq<SdpMediaView>)
    requires
        forall|k: int| 0 <= k < ms.len() ==> media_writable(#[trigger] ms[k]),
    ensures
        forall|k: int| 0 <= k < medias_lines(ms).len() ==> one_line(#[trigger] medias_lines(ms)[k]),
    decreases ms.len(),
{
    if ms.len() > 0 {
        let p = ms.drop_last();
        assert forall|k: int| 0 <= k < p.len() implies media_writable(#[trigger] p[k]) by {
            assert(p[k] == ms[k]);
        }
        lemma_medias_lines_one_line(p);
        assert(media_writable(ms[ms.len() - 1]));
        lemma_media_lines_one_line(ms.last());
        let a = medias_lines(p);
        let b = media_lines(ms.last());
        assert forall|k: int| 0 <= k < (a + b).len() implies one_line(#[trigger] (a + b)[k]) by {
            if k < a.len() {
                assert((a + b)[k] == a[k]);
            } else {
                assert((a + b)[k] == b[k - a.len()]);
            }
        }
    }
}

proof fn lemma_head_lines_one_line(s: SdpSessionView)
    requires
        session_writable(s),
    ensures
        forall|k: int| 0 <= k < head_lines(s).len() ==> one_line(#[trigger] head_lines(s)[k]),
{
    lemma_decimal(s.version as nat);
    let h = head_lines(s);
    assert forall|k: int| 0 <= k < h.len() implies one_line(#[trigger] h[k]) by {
        let l = h[k];
        let x = l.subrange(2, l.len() as int);
        if k == 0 {
            assert(x == decimal(s.version as nat));
            assert forall|i: int| 0 <= i < x.len() implies #[trigger] x[i] != '\n' by {
                assert(is_token(decimal(s.version as nat)));
            }
        } else if k == 1 {
            assert(x == s.owner);
        } else if k == 2 {
            assert(x == s.session_name);
        } else if k == 3 {
            assert(x == s.connection_info);
        } else {
            assert(x == s.time_description);
        }
        assert forall|i: int| 0 <= i < l.len() implies #[trigger] l[i] != '\n' by {
            if i >= 2 {
                assert(l[i] == x[i - 2]);
            }
        }
    }
}

/// A `<tag>=<value>` line reads its value.
proof fn lemma_tag_line(tag: char, x: Seq<char>)
    requires
        tag != '=',
    ensures
        ({
            let l = seq![tag, '='] + x;
            &&& find_char(l, '=', 0, l.len() as int) == 1
            &&& l[0] == tag
            &&& l.subrange(2, l.len() as int) == x
        }),
{
    let l = seq![tag, '='] + x;
    lemma_find_char_at(l, '=', 0, l.len() as int, 1);
}

/// The session-level lines set version, owner, name, connection and time.
proof fn lemma_head_steps(s: SdpSessionView, st: SdpParseState)
    ensures
        apply_lines(head_lines(s), st) == Some(
            SdpParseState {
                session: SdpSessionView {
                    version: s.version,
                    owner: s.owner,
                    session_name: s.session_name,
                    connection_info: s.connection_info,
                    time_description: s.time_description,
                    media: st.session.media,
                },
                current: st.current,
            },
        ),
{
    let h = head_lines(s);
    lemma_tag_line('v', decimal(s.version as nat));
    lemma_tag_line('o', s.owner);
    lemma_tag_line('s', s.session_name);
    lemma_tag_line('c', s.connection_info);
    lemma_tag_line('t', s.time_description);
    lemma_parse_decimal(s.version as nat, u32::MAX as nat);
    let s1 = SdpParseState { session: SdpSessionView { version: s.version, ..st.session }, ..st };
    let s2 = SdpParseState { session: SdpSessionView { owner: s.owner, ..s1.session }, ..s1 };
    let s3 = SdpParseState { session: SdpSessionView { session_name: s.session_name, ..s2.session }, ..s2 };
    let s4 = SdpParseState {
        session: SdpSessionView { connection_info: s.connection_info, ..s3.session },
        ..s3
    };
    let s5 = SdpParseState {
        session: SdpSessionView { time_description: s.time_description, ..s4.session },
        ..s4
    };
    assert(line_step(h[0], st) == Some(s1));
    assert(line_step(h[1], s1) == Some(s2));
    assert(line_step(h[2], s2) == Some(s3));
    assert(line_step(h[3], s3) == Some(s4));
    assert(line_step(h[4], s4) == Some(s5));
    let h1 = h.drop_first();
    let h2 = h1.drop_first();
    let h3 = h2.drop_first();
    let h4 = h3.drop_first();
    let h5 = h4.drop_first();
    assert(h5.len() == 0);
    assert(h4[0] == h[4]);
    assert(h3[0] == h[3]);
    assert(h2[0] == h[2]);
    assert(h1[0] == h[1]);
    assert(apply_lines(h5, s5) == Some(s5));
    assert(apply_lines(h4, s4) == Some(s5));
    assert(apply_lines(h3, s3) == Some(s5));
    assert(apply_lines(h2, s2) == Some(s5));
    assert(apply_lines(h1, s1) == Some(s5));
    assert(apply_lines(h, st) == Some(s5));
}

/// The `m=` line starts a new media description and sets the previous one aside.
proof fn lemma_media_line_step(m: SdpMediaView, st: SdpParseState)
    requires
        media_writable(m),
    ensures
        line_step(media_line(m), st) == Some(
            SdpParseState {
                session: flush_current(st),
                current: Some(SdpMediaView { attributes: seq![], ..m }),
            },
        ),
{
    let sp = seq![' '];
    let parts = seq![m.media_type, decimal(m.port as nat), m.transport] + m.formats;
    let j = join(parts, sp);
    let l = media_line(m);
    lemma_tag_line('m', j);
    lemma_decimal(m.port as nat);
    assert forall|k: int| 0 <= k < parts.len() implies is_token(#[trigger] parts[k]) by {
        if k >= 3 {
            assert(parts[k] == m.formats[k - 3]);
        }
    }
    lemma_tokens_of_join(parts);
    assert(l.subrange(2, 2 + j.len() as int) == j);
    lemma_tokens_at(l, j, 2);
    assert(ws_tokens(l, 2, l.len() as int) == parts);
    assert(parts[1] == decimal(m.port as nat));
    lemma_parse_decimal(m.port as nat, 65535);
    assert(parts.subrange(3, parts.len() as int) == m.formats);
}

/// Each `a=` line adds an attribute to the current media description.
proof fn lemma_attribute_steps(a: Seq<Seq<char>>, sess: SdpSessionView, mm: SdpMediaView)
    ensures
        apply_lines(attribute_lines(a), SdpParseState { session: sess, current: Some(mm) }) == Some(
            SdpParseState {
                session: sess,
                current: Some(SdpMediaView { attributes: mm.attributes + a, ..mm }),
            },
        ),
    decreases a.len(),
{
    let st = SdpParseState { session: sess, current: Some(mm) };
    if a.len() == 0 {
        assert(mm.attributes + a == mm.attributes);
        assert(SdpMediaView { attributes: mm.attributes + a, ..mm } == mm);
    } else {
        let p = a.drop_last();
        let x = a.last();
        let l = seq!['a', '='] + x;
        assert(attribute_lines(a) == attribute_lines(p) + seq![l]);
        lemma_apply_concat(attribute_lines(p), seq![l], st);
        lemma_attribute_steps(p, sess, mm);
        let mid = SdpMediaView { attributes: mm.attributes + p, ..mm };
        let st1 = SdpParseState { session: sess, current: Some(mid) };
        lemma_tag_line('a', x);
        let st2 = SdpParseState {
            session: sess,
            current: Some(SdpMediaView { attributes: mid.attributes.push(x), ..mid }),
        };
        assert(line_step(l, st1) == Some(st2));
        assert(seq![l][0] == l);
        assert(seq![l].drop_first().len() == 0);
        assert(apply_lines(seq![l].drop_first(), st2) == Some(st2));
        assert(apply_lines(seq![l], st1) == Some(st2));
        assert((mm.attributes + p).push(x) == mm.attributes + a);
        assert(SdpMediaView { attributes: mid.attributes.push(x), ..mid } == SdpMediaView {
            attributes: mm.attributes + a,
            ..mm
        });
    }
}

/// The lines of a media description make it the current one.
proof fn lemma_media_steps(m: SdpMediaView, st: SdpParseState)
    requires
        media_writable(m),
    ensures
        apply_lines(media_lines(m), st) == Some(
            SdpParseState { session: flush_current(st), current: Some(m) },
        ),
{
    let l = media_line(m);
    lemma_apply_concat(seq![l], attribute_lines(m.attributes), st);
    lemma_media_line_step(m, st);
    let m0 = SdpMediaView { attributes: seq![], ..m };
    let st1 = SdpParseState { session: flush_current(st), current: Some(m0) };
    assert(seq![l][0] == l);
    assert(seq![l].drop_first().len() == 0);
    assert(apply_lines(seq![l].drop_first(), st1) == Some(st1));
    assert(apply_lines(seq![l], st) == Some(st1));
    lemma_attribute_steps(m.attributes, flush_current(st), m0);
    assert(m0.attributes + m.attributes == m.attributes);
    assert(SdpMediaView { attributes: m0.attributes + m.attributes, ..m0 } == m);
}

/// The lines of a list of media descriptions: all but the last are set
/// aside in order, the last is the current one.
proof fn lemma_medias_steps(ms: Seq<SdpMediaView>, st: SdpParseState)
    requires
        forall|k: int| 0 <= k < ms.len() ==> media_writable(#[trigger] ms[k]),
    ensures
        apply_lines(medias_lines(ms), st) == Some(
            if ms.len() == 0 {
                st
            } else {
                SdpParseState {
                    session: SdpSessionView {
                        media: flush_current(st).media + ms.drop_last(),
                        ..flush_current(st)
                    },
                    current: Some(ms.last()),
                }
            },
        ),
    decreases ms.len(),
{
    if ms.len() > 0 {
        let p = ms.drop_last();
        let m = ms.last();
        assert forall|k: int| 0 <= k < p.len() implies media_writable(#[trigger] p[k]) by {
            assert(p[k] == ms[k]);
        }
        assert(media_writable(ms[ms.len() - 1]));
        lemma_medias_steps(p, st);
        lemma_apply_concat(medias_lines(p), media_lines(m), st);
        let r = if p.len() == 0 {
            st
        } else {
            SdpParseState {
                session: SdpSessionView {
                    media: flush_current(st).media + p.drop_last(),
                    ..flush_current(st)
                },
                current: Some(p.last()),
            }
        };
        lemma_media_steps(m, r);
        if p.len() == 0 {
            assert(flush_current(st).media + p == flush_current(st).media);
            assert(SdpSessionView { media: flush_current(st).media + p, ..flush_current(st) }
                == flush_current(st));
        } else {
            assert((flush_current(st).media + p.drop_last()).push(p.last()) == flush_current(
                st,
            ).media + p);
            assert(flush_current(r) == SdpSessionView {
                media: flush_current(st).media + p,
                ..flush_current(st)
            });
        }
    }
}

/// A session whose text fields hold no line break and whose media are
/// writable reads back from its text as itself.
pub proof fn lemma_session_roundtrip(s: SdpSessionView)
    requires
        session_writable(s),
    ensures
        parse_session_text(session_text(s)) == Some(s),
{
    assert forall|k: int| 0 <= k < s.media.len() implies (#[trigger] s.media[k]).formats.len() > 0 by {
        assert(media_writable(s.media[k]));
    }
    lemma_session_text(s);
    let h = head_lines(s);
    let ml = medias_lines(s.media);
    let ls = h + ml;
    let t = session_text(s);
    lemma_head_lines_one_line(s);
    lemma_medias_lines_one_line(s.media);
    assert forall|k: int| 0 <= k < ls.len() implies one_line(#[trigger] ls[k]) by {
        if k < h.len() {
            assert(ls[k] == h[k]);
        } else {
            assert(ls[k] == ml[k - h.len()]);
        }
    }
    assert(t.subrange(0, t.len() as int) == t);
    let st0 = SdpParseState { session: new_session(seq![], seq![], seq![]), current: None };
    lemma_sdp_lines(t, 0, ls, st0);
    lemma_apply_concat(h, ml, st0);
    lemma_head_steps(s, st0);
    let st1 = SdpParseState {
        session: SdpSessionView {
            version: s.version,
            owner: s.owner,
            session_name: s.session_name,
            connection_info: s.connection_info,
            time_description: s.time_description,
            media: seq![],
        },
        current: None,
    };
    lemma_medias_steps(s.media, st1);
    if s.media.len() == 0 {
        assert(st1.session == s);
    } else {
        assert(Seq::<SdpMediaView>::empty() + s.media.drop_last() == s.media.drop_last());
        assert(s.media.drop_last().push(s.media.last()) == s.media);
    }
}

} // verus!
