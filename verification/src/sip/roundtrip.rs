//! What parsing gives back of the text a request or response is written as.
use vstd::prelude::*;
use vstd::utf8::{decode_utf8, decode_utf8_encode_utf8, encode_utf8, valid_utf8};
use crate::sip::{
    known_method, MethodView,
    crlf, header_lines, header_section, headers_text, method_from_text, method_name,
    parse_request_text, parse_response_text, request_text, response_text, SipRequestView,
    SipResponseView,
};
use crate::text::{
    ascii_upper, is_ascii_text, uppercase, has_prefix,
    decimal, find_char, find_crlf, is_ws, join, skip_ws, tokens, trim_end_at, trimmed,
    utf8_lossy, ws_tokens, skip_text, lemma_skip_ws, lemma_skip_text,
};
use crate::text_facts::{
    is_token, lemma_decimal, lemma_find_char_at, lemma_find_crlf_at, lemma_parse_decimal,
    lemma_skip_ws_at, lemma_tokens_at, lemma_trim_end_at_at, lemma_ws_tokens_first,
    lemma_ws_tokens_skip, no_crlf_in,
};

verus! {

/// No `\r\n` inside a text.
pub open spec fn no_crlf(t: Seq<char>) -> bool {
    forall|k: int| 0 <= k < t.len() - 1 ==> !(#[trigger] t[k] == '\r' && t[k + 1] == '\n')
}

/// No whitespace at either end of a text.
pub open spec fn no_edge_ws(t: Seq<char>) -> bool {
    t.len() > 0 ==> !is_ws(t[0]) && !is_ws(t[t.len() - 1])
}

/// A header that its `Name: value` line reads back as: a name without `:`,
/// name and value without surrounding whitespace and without line breaks.
pub open spec fn header_writable(h: (Seq<char>, Seq<char>)) -> bool {
    &&& !h.0.contains(':')
    &&& no_edge_ws(h.0)
    &&& no_edge_ws(h.1)
    &&& no_crlf(h.0)
    &&& no_crlf(h.1)
}

pub open spec fn headers_writable(hs: Seq<(Seq<char>, Seq<char>)>) -> bool {
    forall|k: int| 0 <= k < hs.len() ==> header_writable(#[trigger] hs[k])
}

/// One header line.
pub open spec fn header_line(h: (Seq<char>, Seq<char>)) -> Seq<char> {
    h.0 + seq![':', ' '] + h.1 + crlf()
}

proof fn lemma_headers_text_cons(h: (Seq<char>, Seq<char>), rest: Seq<(Seq<char>, Seq<char>)>)
    ensures
        headers_text(seq![h] + rest) == header_line(h) + headers_text(rest),
    decreases rest.len(),
{
    let all = seq![h] + rest;
    if rest.len() == 0 {
        assert(all == seq![h]);
        assert(all.drop_last() == Seq::<(Seq<char>, Seq<char>)>::empty());
        assert(all.last() == h);
        assert(headers_text(Seq::<(Seq<char>, Seq<char>)>::empty()) == Seq::<char>::empty());
        assert(headers_text(all) == Seq::<char>::empty() + h.0 + seq![':', ' '] + h.1 + crlf());
    } else {
        lemma_headers_text_cons(h, rest.drop_last());
        assert(all.drop_last() == seq![h] + rest.drop_last());
        assert(all.last() == rest.last());
    }
}

/// The header lines of `hs`, followed by an empty line, read back as `hs`,
/// with the body starting after the empty line.
proof fn lemma_header_lines(s: Seq<char>, p: int, hs: Seq<(Seq<char>, Seq<char>)>)
    requires
        headers_writable(hs),
        0 <= p,
        p + headers_text(hs).len() + 2 <= s.len(),
        s.subrange(p, p + headers_text(hs).len()) == headers_text(hs),
        s[p + headers_text(hs).len()] == '\r',
        s[p + headers_text(hs).len() + 1] == '\n',
    ensures
        header_lines(s, p) == (hs, p + headers_text(hs).len() + 2),
    decreases hs.len(),
{
    let ht = headers_text(hs);
    if hs.len() == 0 {
        lemma_find_crlf_at(s, p, p);
        return;
    }
    let h = hs[0];
    let rest = hs.drop_first();
    assert(hs == seq![h] + rest);
    lemma_headers_text_cons(h, rest);
    let rt = headers_text(rest);
    assert(ht == header_line(h) + rt);
    assert(header_writable(h));
    assert(headers_writable(rest)) by {
        assert forall|k: int| 0 <= k < rest.len() implies header_writable(#[trigger] rest[k]) by {
            assert(rest[k] == hs[k + 1]);
        }
    }
    let n0 = h.0.len() as int;
    let n1 = h.1.len() as int;
    let c = p + n0;
    let e = p + n0 + 2 + n1;
    assert forall|k: int| 0 <= k < ht.len() implies s[p + k] == #[trigger] ht[k] by {
        assert(s.subrange(p, p + ht.len())[k] == ht[k]);
    }
    assert forall|k: int| 0 <= k < n0 implies s[p + k] == #[trigger] h.0[k] by {
        assert(ht[k] == h.0[k]);
    }
    assert(s[c] == ':') by {
        assert(ht[n0] == ':');
    }
    assert(s[c + 1] == ' ') by {
        assert(ht[n0 + 1] == ' ');
    }
    assert forall|k: int| 0 <= k < n1 implies s[c + 2 + k] == #[trigger] h.1[k] by {
        assert(ht[n0 + 2 + k] == h.1[k]);
    }
    assert(s[e] == '\r') by {
        assert(ht[n0 + 2 + n1] == '\r');
    }
    assert(s[e + 1] == '\n') by {
        assert(ht[n0 + 2 + n1 + 1] == '\n');
    }
    assert(is_ws('\r'));
    assert(no_crlf_in(s, p, e)) by {
        assert forall|k: int| p <= k < e && k + 1 < s.len() implies !(#[trigger] s[k] == '\r'
            && s[k + 1] == '\n') by {
            if k < c - 1 {
                assert(s[k] == h.0[k - p]);
                assert(s[k + 1] == h.0[k - p + 1]);
            } else if k == c - 1 {
                assert(s[k + 1] == ':');
            } else if k == c {
            } else if k == c + 1 {
            } else if k < e - 1 {
                assert(s[k] == h.1[k - c - 2]);
                assert(s[k + 1] == h.1[k - c - 2 + 1]);
            } else {
                assert(k == e - 1);
                assert(n1 > 0);
                assert(s[k] == h.1[n1 - 1]);
            }
        }
    }
    lemma_find_crlf_at(s, p, e);
    assert(find_crlf(s, p) == e);
    // the rest of the header lines
    assert(s.subrange(e + 2, e + 2 + rt.len()) == rt) by {
        assert forall|k: int| 0 <= k < rt.len() implies s.subrange(e + 2, e + 2 + rt.len())[k]
            == #[trigger] rt[k] by {
            assert(ht[n0 + 2 + n1 + 2 + k] == rt[k]);
        }
    }
    assert(s[e + 2 + rt.len()] == '\r');
    assert(s[e + 2 + rt.len() + 1] == '\n');
    lemma_header_lines(s, e + 2, rest);
    // the name and the value
    assert forall|k: int| p <= k < c implies #[trigger] s[k] != ':' by {
        assert(s[k] == h.0[k - p]);
        if s[k] == ':' {
            assert(h.0.contains(':'));
        }
    }
    lemma_find_char_at(s, ':', p, e, c);
    if n0 > 0 {
        assert(s[p] == h.0[0]);
        assert(s[c - 1] == h.0[n0 - 1]);
    }
    lemma_skip_ws_at(s, p, c, p);
    lemma_trim_end_at_at(s, p, c, c);
    assert(s.subrange(p, c) == h.0);
    assert(trimmed(s, p, c) == h.0);
    assert(is_ws(' '));
    if n1 > 0 {
        assert(s[c + 2] == h.1[0]);
        assert(s[e - 1] == h.1[n1 - 1]);
    }
    lemma_skip_ws_at(s, c + 1, e, c + 2);
    lemma_trim_end_at_at(s, c + 2, e, e);
    assert(s.subrange(c + 2, e) == h.1);
    assert(trimmed(s, c + 1, e) == h.1);
    assert(seq![(h.0, h.1)] + rest == hs);
}

/// A request that its text reads back as: method, URI and version are tokens
/// and the method's name reads back as the method; the headers are writable
/// and the body is valid UTF-8.
pub open spec fn request_writable(r: SipRequestView) -> bool {
    &&& is_token(method_name(r.method))
    &&& method_from_text(method_name(r.method)) == r.method
    &&& is_token(r.uri)
    &&& is_token(r.version)
    &&& headers_writable(r.headers)
    &&& valid_utf8(r.body)
}

/// The lines after a start line ending at `n0` read back as the headers and body.
proof fn lemma_message_tail(s: Seq<char>, n0: int, hs: Seq<(Seq<char>, Seq<char>)>, body: Seq<u8>)
    requires
        headers_writable(hs),
        valid_utf8(body),
        0 <= n0,
        s.len() == n0 + 2 + headers_text(hs).len() + 2 + utf8_lossy(body).len(),
        s[n0] == '\r',
        s[n0 + 1] == '\n',
        s.subrange(n0 + 2, s.len() as int) == headers_text(hs) + crlf() + utf8_lossy(body),
    ensures
        header_section(s, n0).0 == hs,
        encode_utf8(s.subrange(header_section(s, n0).1, s.len() as int)) == body,
{
    let ht = headers_text(hs);
    let tail = s.subrange(n0 + 2, s.len() as int);
    assert(s.subrange(n0 + 2, n0 + 2 + ht.len()) == ht) by {
        assert forall|k: int| 0 <= k < ht.len() implies s.subrange(n0 + 2, n0 + 2 + ht.len())[k]
            == #[trigger] ht[k] by {
            assert(tail[k] == ht[k]);
        }
    }
    assert(s[n0 + 2 + ht.len()] == '\r') by {
        assert(tail[ht.len() as int] == '\r');
    }
    assert(s[n0 + 2 + ht.len() + 1] == '\n') by {
        assert(tail[ht.len() as int + 1] == '\n');
    }
    lemma_header_lines(s, n0 + 2, hs);
    let b = n0 + 2 + ht.len() + 2;
    assert(s.subrange(b, s.len() as int) == utf8_lossy(body)) by {
        assert forall|k: int| 0 <= k < utf8_lossy(body).len() implies s.subrange(b, s.len() as int)[k]
            == #[trigger] utf8_lossy(body)[k] by {
            assert(tail[ht.len() + 2 + k] == utf8_lossy(body)[k]);
        }
    }
    decode_utf8_encode_utf8(body);
}

/// Parsing the text of a request gives back the request, for every request
/// whose parts its text can carry (`request_writable`).
/// The start line of a request whose method name, URI and version are tokens
/// ends at the first CRLF and reads as those three tokens.
proof fn lemma_request_start_line(r: SipRequestView)
    requires
        is_token(method_name(r.method)),
        is_token(r.uri),
        is_token(r.version),
    ensures
        ({
            let s = request_text(r);
            let n0: int = (method_name(r.method).len() + 1 + r.uri.len() + 1 + r.version.len()) as int;
            &&& find_crlf(s, 0) == n0
            &&& ws_tokens(s, 0, n0) == seq![method_name(r.method), r.uri, r.version]
            &&& s.subrange(n0 + 2, s.len() as int) == headers_text(r.headers) + crlf() + utf8_lossy(
                r.body,
            )
        }),
{
    let s = request_text(r);
    let m = method_name(r.method);
    let line = m + seq![' '] + r.uri + seq![' '] + r.version;
    let n0 = line.len() as int;
    let tail = headers_text(r.headers) + crlf() + utf8_lossy(r.body);
    assert(s == line + crlf() + tail);
    let a = m.len() as int;
    let b = a + 1 + r.uri.len();
    assert(is_ws(' '));
    assert(is_ws('\r'));
    assert forall|k: int| 0 <= k < a implies !is_ws(#[trigger] s[k]) by {
        assert(s[k] == m[k]);
    }
    assert forall|k: int| a + 1 <= k < b implies !is_ws(#[trigger] s[k]) by {
        assert(s[k] == r.uri[k - a - 1]);
    }
    assert forall|k: int| b + 1 <= k < n0 implies !is_ws(#[trigger] s[k]) by {
        assert(s[k] == r.version[k - b - 1]);
    }
    assert(s[a] == ' ');
    assert(s[b] == ' ');
    assert(s[n0] == '\r');
    assert(s[n0 + 1] == '\n');
    assert(no_crlf_in(s, 0, n0)) by {
        assert forall|k: int| 0 <= k < n0 && k + 1 < s.len() implies !(#[trigger] s[k] == '\r'
            && s[k + 1] == '\n') by {
            if k < a {
            } else if k == a {
            } else if k < b {
            } else if k == b {
            } else {
            }
        }
    }
    lemma_find_crlf_at(s, 0, n0);
    lemma_ws_tokens_first(s, 0, a, n0);
    lemma_ws_tokens_skip(s, a, n0);
    lemma_ws_tokens_first(s, a + 1, b, n0);
    lemma_ws_tokens_skip(s, b, n0);
    lemma_ws_tokens_first(s, b + 1, n0, n0);
    assert(s.subrange(0, a) == m);
    assert(s.subrange(a + 1, b) == r.uri);
    assert(s.subrange(b + 1, n0) == r.version);
    assert(ws_tokens(s, 0, n0) == seq![m, r.uri, r.version]);
    assert(s.subrange(n0 + 2, s.len() as int) == tail);
}

pub proof fn lemma_request_roundtrip(r: SipRequestView)
    requires
        request_writable(r),
    ensures
        parse_request_text(request_text(r)) == Some(r),
{
    let s = request_text(r);
    let n0: int = (method_name(r.method).len() + 1 + r.uri.len() + 1 + r.version.len()) as int;
    lemma_request_start_line(r);
    lemma_message_tail(s, n0, r.headers, r.body);
}

/// A reason phrase that reads back as itself: words separated by single spaces.
pub open spec fn reason_writable(reason: Seq<char>) -> bool {
    join(tokens(reason), seq![' ']) == reason
}

/// A response that its text reads back as: version a token, the reason words
/// separated by single spaces; the headers writable and the body valid UTF-8.
pub open spec fn response_writable(r: SipResponseView) -> bool {
    &&& is_token(r.version)
    &&& reason_writable(r.reason)
    &&& headers_writable(r.headers)
    &&& valid_utf8(r.body)
}

/// The tokens of a text are tokens.
proof fn lemma_ws_tokens_are_tokens(s: Seq<char>, i: int, j: int)
    requires
        0 <= i,
        j <= s.len(),
    ensures
        forall|k: int| 0 <= k < ws_tokens(s, i, j).len() ==> is_token(#[trigger] ws_tokens(s, i, j)[k]),
    decreases j - i,
{
    if i < j {
        lemma_skip_ws(s, i, j);
        let a = skip_ws(s, i, j);
        if a < j {
            lemma_skip_text(s, a, j);
            let b = skip_text(s, a, j);
            lemma_ws_tokens_are_tokens(s, b, j);
            let t = ws_tokens(s, i, j);
            assert(t == seq![s.subrange(a, b)] + ws_tokens(s, b, j));
            assert forall|k: int| 0 <= k < t.len() implies is_token(#[trigger] t[k]) by {
                if k == 0 {
                    assert(t[0] == s.subrange(a, b));
                    assert forall|m: int| 0 <= m < b - a implies !is_ws(#[trigger] s.subrange(a, b)[m]) by {
                        assert(s.subrange(a, b)[m] == s[a + m]);
                    }
                } else {
                    assert(t[k] == ws_tokens(s, b, j)[k - 1]);
                }
            }
        }
    }
}

/// Tokens joined by single spaces hold no `\r`.
proof fn lemma_join_no_cr(ts: Seq<Seq<char>>)
    requires
        forall|k: int| 0 <= k < ts.len() ==> is_token(#[trigger] ts[k]),
    ensures
        forall|k: int| 0 <= k < join(ts, seq![' ']).len() ==> #[trigger] join(ts, seq![' '])[k] != '\r',
    decreases ts.len(),
{
    assert(is_ws('\r'));
    let t = join(ts, seq![' ']);
    if ts.len() == 0 {
    } else if ts.len() == 1 {
        assert(is_token(ts[0]));
    } else {
        let p = ts.drop_last();
        lemma_join_no_cr(p);
        let x = ts.last();
        assert(is_token(x)) by {
            assert(x == ts[ts.len() - 1]);
        }
        let a = join(p, seq![' ']);
        assert(t == a + seq![' '] + x);
        assert forall|k: int| 0 <= k < t.len() implies #[trigger] t[k] != '\r' by {
            if k < a.len() {
                assert(t[k] == a[k]);
            } else if k == a.len() {
            } else {
                assert(t[k] == x[k - a.len() - 1]);
            }
        }
    }
}

/// Parsing the text of a response gives back the response, for every response
/// whose parts its text can carry (`response_writable`).
pub proof fn lemma_response_roundtrip(r: SipResponseView)
    requires
        response_writable(r),
    ensures
        parse_response_text(response_text(r)) == Some(r),
{
    let s = response_text(r);
    let d = decimal(r.status_code as nat);
    lemma_decimal(r.status_code as nat);
    let line = r.version + seq![' '] + d + seq![' '] + r.reason;
    let n0 = line.len() as int;
    let tail = headers_text(r.headers) + crlf() + utf8_lossy(r.body);
    assert(s == line + crlf() + tail);
    let a = r.version.len() as int;
    let b = a + 1 + d.len();
    assert(is_ws(' '));
    assert(is_ws('\r'));
    lemma_ws_tokens_are_tokens(r.reason, 0, r.reason.len() as int);
    lemma_join_no_cr(tokens(r.reason));
    assert forall|k: int| 0 <= k < a implies !is_ws(#[trigger] s[k]) by {
        assert(s[k] == r.version[k]);
    }
    assert forall|k: int| a + 1 <= k < b implies !is_ws(#[trigger] s[k]) by {
        assert(s[k] == d[k - a - 1]);
    }
    assert forall|k: int| b + 1 <= k < n0 implies #[trigger] s[k] == r.reason[k - b - 1] by {
    }
    assert(s[a] == ' ');
    assert(s[b] == ' ');
    assert(s[n0] == '\r');
    assert(s[n0 + 1] == '\n');
    assert(no_crlf_in(s, 0, n0)) by {
        assert forall|k: int| 0 <= k < n0 && k + 1 < s.len() implies !(#[trigger] s[k] == '\r'
            && s[k + 1] == '\n') by {
            if k < a {
            } else if k == a {
            } else if k < b {
            } else if k == b {
            } else {
                assert(s[k] == r.reason[k - b - 1]);
            }
        }
    }
    lemma_find_crlf_at(s, 0, n0);
    lemma_ws_tokens_first(s, 0, a, n0);
    lemma_ws_tokens_skip(s, a, n0);
    lemma_ws_tokens_first(s, a + 1, b, n0);
    lemma_ws_tokens_skip(s, b, n0);
    assert(s.subrange(b + 1, b + 1 + r.reason.len()) == r.reason);
    lemma_tokens_at(s, r.reason, b + 1);
    assert(s.subrange(0, a) == r.version);
    assert(s.subrange(a + 1, b) == d);
    let t = ws_tokens(s, 0, n0);
    assert(t == seq![r.version, d] + tokens(r.reason));
    assert(t.subrange(2, t.len() as int) == tokens(r.reason));
    lemma_parse_decimal(r.status_code as nat, 65535);
    assert(s.subrange(n0 + 2, s.len() as int) == tail);
    lemma_message_tail(s, n0, r.headers, r.body);
}


proof fn lemma_upper_name(t: Seq<char>)
    requires
        forall|k: int| 0 <= k < t.len() ==> 65 <= (#[trigger] t[k] as u32) <= 90,
    ensures
        uppercase(t) == t,
{
    assert(is_ascii_text(t));
    assert(t.map_values(|c: char| ascii_upper(c)) =~= t);
}

/// Every known method's name is a token that reads back as that method.
pub proof fn lemma_known_method_reads_back(m: MethodView)
    requires
        !(m is Unknown),
    ensures
        is_token(method_name(m)),
        method_from_text(method_name(m)) == m,
{
    let t = method_name(m);
    assert forall|k: int| 0 <= k < t.len() implies 65 <= (#[trigger] t[k] as u32) <= 90 by {
        match m {
            MethodView::Invite => {},
            MethodView::Ack => {},
            MethodView::Bye => {},
            MethodView::Cancel => {},
            MethodView::Options => {},
            MethodView::Register => {},
            MethodView::Notify => {},
            MethodView::Subscribe => {},
            MethodView::Message => {},
            MethodView::Refer => {},
            MethodView::Update => {},
            MethodView::Info => {},
            MethodView::Prack => {},
            MethodView::Publish => {},
            MethodView::Unknown(_) => {},
        }
    }
    lemma_upper_name(t);
    assert forall|k: int| 0 <= k < t.len() implies !is_ws(#[trigger] t[k]) by {
        assert(65 <= (t[k] as u32) <= 90);
    }
    let names = seq![
        method_name(MethodView::Invite),
        method_name(MethodView::Ack),
        method_name(MethodView::Bye),
        method_name(MethodView::Cancel),
        method_name(MethodView::Options),
        method_name(MethodView::Register),
        method_name(MethodView::Notify),
        method_name(MethodView::Subscribe),
        method_name(MethodView::Message),
        method_name(MethodView::Refer),
        method_name(MethodView::Update),
        method_name(MethodView::Info),
        method_name(MethodView::Prack),
        method_name(MethodView::Publish),
    ];
    assert(method_name(MethodView::Invite) != method_name(MethodView::Info)) by {
        assert(method_name(MethodView::Invite).len() != method_name(MethodView::Info).len());
    }
    assert(method_name(MethodView::Register) != method_name(MethodView::Refer)) by {
        assert(method_name(MethodView::Register).len() != method_name(MethodView::Refer).len());
    }
    assert(method_name(MethodView::Prack) != method_name(MethodView::Refer)) by {
        assert(method_name(MethodView::Prack)[0] != method_name(MethodView::Refer)[0]);
    }
    assert(method_name(MethodView::Options) != method_name(MethodView::Message)) by {
        assert(method_name(MethodView::Options)[0] != method_name(MethodView::Message)[0]);
    }
    assert(method_name(MethodView::Options) != method_name(MethodView::Publish)) by {
        assert(method_name(MethodView::Options)[0] != method_name(MethodView::Publish)[0]);
    }
    assert(method_name(MethodView::Message) != method_name(MethodView::Publish)) by {
        assert(method_name(MethodView::Message)[0] != method_name(MethodView::Publish)[0]);
    }
    assert(method_name(MethodView::Cancel) != method_name(MethodView::Notify)) by {
        assert(method_name(MethodView::Cancel)[0] != method_name(MethodView::Notify)[0]);
    }
    assert(method_name(MethodView::Cancel) != method_name(MethodView::Update)) by {
        assert(method_name(MethodView::Cancel)[0] != method_name(MethodView::Update)[0]);
    }
    assert(method_name(MethodView::Notify) != method_name(MethodView::Update)) by {
        assert(method_name(MethodView::Notify)[0] != method_name(MethodView::Update)[0]);
    }
    assert(method_name(MethodView::Invite) != method_name(MethodView::Cancel)) by {
        assert(method_name(MethodView::Invite)[0] != method_name(MethodView::Cancel)[0]);
    }
    assert(method_name(MethodView::Invite) != method_name(MethodView::Notify)) by {
        assert(method_name(MethodView::Invite)[0] != method_name(MethodView::Notify)[0]);
    }
    assert(method_name(MethodView::Invite) != method_name(MethodView::Update)) by {
        assert(method_name(MethodView::Invite)[0] != method_name(MethodView::Update)[0]);
    }
    assert(method_name(MethodView::Ack) != method_name(MethodView::Bye)) by {
        assert(method_name(MethodView::Ack)[0] != method_name(MethodView::Bye)[0]);
    }
    assert(method_name(MethodView::Ack) != method_name(MethodView::Bye)) by {
        assert(method_name(MethodView::Ack)[0] != method_name(MethodView::Bye)[0]);
    }
    assert(method_name(MethodView::Register) != method_name(MethodView::Subscribe)) by {
        assert(method_name(MethodView::Register).len() != method_name(MethodView::Subscribe).len());
    }
    assert(method_name(MethodView::Refer) != method_name(MethodView::Prack)) by {
        assert(method_name(MethodView::Refer)[0] != method_name(MethodView::Prack)[0]);
    }
    assert(method_name(MethodView::Info) != method_name(MethodView::Invite));
}

/// A message whose text reads back as it: a writable request whose method's
/// name does not start with `SIP/2.0`, or a writable response whose version
/// starts with `SIP/2.0`.
pub open spec fn message_writable(m: crate::sip::SipMessageView) -> bool {
    match m {
        crate::sip::SipMessageView::Request(r) => request_writable(r) && !has_prefix(
            method_name(r.method),
            crate::sip::sip_version(),
        ),
        crate::sip::SipMessageView::Response(r) => response_writable(r) && has_prefix(
            r.version,
            crate::sip::sip_version(),
        ),
    }
}

/// Parsing the text of a message gives back the message, for every message
/// whose text reads back as it (`message_writable`).
pub proof fn lemma_message_roundtrip(m: crate::sip::SipMessageView)
    requires
        message_writable(m),
    ensures
        crate::sip::parse_message_text(crate::sip::message_text(m)) == Some(m),
{
    let v = crate::sip::sip_version();
    match m {
        crate::sip::SipMessageView::Request(r) => {
            lemma_request_roundtrip(r);
            let s = request_text(r);
            let name = method_name(r.method);
            assert(is_ws(' '));
            if has_prefix(s, v) {
                if name.len() >= 7 {
                    assert(s.subrange(0, 7) == name.subrange(0, 7));
                    assert(has_prefix(name, v));
                } else {
                    assert(s[name.len() as int] == ' ');
                    assert(s.subrange(0, 7)[name.len() as int] == v[name.len() as int]);
                }
            }
        },
        crate::sip::SipMessageView::Response(r) => {
            lemma_response_roundtrip(r);
            let s = response_text(r);
            assert(s.subrange(0, 7) == r.version.subrange(0, 7));
        },
    }
}

/// The status line of a response whose version is a token starts with that
/// version and the status code, whatever the reason phrase holds.
proof fn lemma_response_start_line(r: SipResponseView)
    requires
        is_token(r.version),
    ensures
        parse_response_text(response_text(r)) matches Some(q) && q.status_code == r.status_code
            && q.version == r.version,
{
    let s = response_text(r);
    let d = decimal(r.status_code as nat);
    lemma_decimal(r.status_code as nat);
    let a = r.version.len() as int;
    let b = a + 1 + d.len();
    let head = r.version + seq![' '] + d + seq![' '];
    assert(s == head + (r.reason + crlf() + headers_text(r.headers) + crlf() + utf8_lossy(r.body)));
    assert(is_ws(' '));
    assert(is_ws('\r'));
    assert forall|k: int| 0 <= k < a implies !is_ws(#[trigger] s[k]) by {
        assert(s[k] == r.version[k]);
    }
    assert forall|k: int| a + 1 <= k < b implies !is_ws(#[trigger] s[k]) by {
        assert(s[k] == d[k - a - 1]);
    }
    assert(s[a] == ' ');
    assert(s[b] == ' ');
    crate::text::lemma_find_crlf(s, 0);
    let e0 = find_crlf(s, 0);
    if e0 <= b {
        if e0 < s.len() {
            assert(s[e0] == '\r');
            assert(e0 != a && e0 != b);
            if e0 < a {
                assert(!is_ws(s[e0]));
            } else {
                assert(!is_ws(s[e0]));
            }
        }
        assert(s.len() > b);
    }
    assert(b < e0);
    lemma_ws_tokens_first(s, 0, a, e0);
    lemma_ws_tokens_skip(s, a, e0);
    lemma_ws_tokens_first(s, a + 1, b, e0);
    assert(s.subrange(0, a) == r.version);
    assert(s.subrange(a + 1, b) == d);
    let t = ws_tokens(s, 0, e0);
    assert(t == seq![r.version, d] + ws_tokens(s, b, e0));
    assert(t[0] == r.version);
    assert(t[1] == d);
    lemma_parse_decimal(r.status_code as nat, 65535);
}

/// What a message's start line holds when its text is parsed: for a request
/// whose method name, URI and version are tokens (and whose method name does
/// not start with `SIP/2.0`), a request with the method that the name reads
/// as, the same URI and the same version; for a response whose version is a
/// token starting with `SIP/2.0`, a response with the same status code and
/// version. Headers, body and reason may be anything.
pub open spec fn start_line_reads_back(m: crate::sip::SipMessageView, p: crate::sip::SipMessageView) -> bool {
    match (m, p) {
        (crate::sip::SipMessageView::Request(r), crate::sip::SipMessageView::Request(q)) => {
            &&& q.method == method_from_text(method_name(r.method))
            &&& q.uri == r.uri
            &&& q.version == r.version
        },
        (crate::sip::SipMessageView::Response(r), crate::sip::SipMessageView::Response(q)) => {
            &&& q.status_code == r.status_code
            &&& q.version == r.version
        },
        _ => false,
    }
}

/// A message whose start line is made of tokens: method name, URI and version
/// for a request (the name not starting with `SIP/2.0`), a version starting
/// with `SIP/2.0` for a response.
pub open spec fn start_line_writable(m: crate::sip::SipMessageView) -> bool {
    match m {
        crate::sip::SipMessageView::Request(r) => {
            &&& is_token(method_name(r.method))
            &&& !has_prefix(method_name(r.method), crate::sip::sip_version())
            &&& is_token(r.uri)
            &&& is_token(r.version)
        },
        crate::sip::SipMessageView::Response(r) => {
            &&& is_token(r.version)
            &&& has_prefix(r.version, crate::sip::sip_version())
        },
    }
}

/// Parsing the text of any message with a start line of tokens gives a
/// message of the same kind with the same start line: method (as its name
/// reads back), URI and version of a request; status code and version of a
/// response.
pub proof fn lemma_message_start_line(m: crate::sip::SipMessageView)
    requires
        start_line_writable(m),
    ensures
        crate::sip::parse_message_text(crate::sip::message_text(m)) matches Some(p)
            && start_line_reads_back(m, p),
{
    let v = crate::sip::sip_version();
    match m {
        crate::sip::SipMessageView::Request(r) => {
            lemma_request_start_line(r);
            let s = request_text(r);
            let name = method_name(r.method);
            assert(is_ws(' '));
            if has_prefix(s, v) {
                if name.len() >= 7 {
                    assert(s.subrange(0, 7) == name.subrange(0, 7));
                    assert(has_prefix(name, v));
                } else {
                    assert(s[name.len() as int] == ' ');
                    assert(s.subrange(0, 7)[name.len() as int] == v[name.len() as int]);
                }
            }
        },
        crate::sip::SipMessageView::Response(r) => {
            lemma_response_start_line(r);
            let s = response_text(r);
            assert(s.subrange(0, 7) == r.version.subrange(0, 7));
        },
    }
}

} // verus!
