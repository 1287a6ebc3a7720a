//! What every step of a registration or of a call being placed keeps.
use vstd::prelude::*;
use crate::text::{contains_sub, has_prefix};
use crate::sip::{header_value, method_name, MethodView, SipResponseView};
use crate::sip::auth::{digest_response, digest_response_qop};
use crate::sip::header_updates::lemma_set_then_get;
use crate::media::sdp::{in_ip4, media_index, session_text, SdpSessionView};
use crate::media::sdp_roundtrip::{lemma_session_roundtrip, session_writable};
use crate::text::{decimal, join, tokens};
use crate::text_facts::{is_token, lemma_tokens_of_join};
use crate::common::AccountView;
use crate::text::{find_char, is_ws, lemma_skip_ws, lemma_trim_end_at, trimmed};
use crate::text_facts::{lemma_find_char_at, lemma_skip_ws_at, lemma_trim_end_at_at};
use crate::sip::ua::{
    ack_request, bye_request, rtp_address, strip_angles, tag_from,
    authorization_header, authorization_text, challenge_header, or_empty, quoted_param,
    answers_challenge, dial_uri, server_address_text, call_index, invite_step, register_step, CallView, InviteView, RegisterView, UaActionView,
    UaView,
};

verus! {

/// A registration step answers a challenge at most three times in all, and
/// uses a new CSeq exactly when it sends a request; it changes neither the
/// account nor the calls.
pub proof fn lemma_register_step_bounds(
    ua: UaView,
    s: RegisterView,
    msg: Option<crate::sip::SipMessageView>,
    branch_id: Seq<char>,
    cnonce: Seq<char>,
)
    requires
        s.retry_count <= 3,
        answers_challenge(ua, s.retry_count, msg) ==> ua.cseq < u32::MAX,
    ensures
        ({
            let (u, t, a) = register_step(ua, s, msg, branch_id, cnonce);
            &&& t.retry_count <= 3
            &&& a is Send ==> t.retry_count == s.retry_count + 1 && u.cseq == ua.cseq + 1
            &&& !(a is Send) ==> u.cseq == ua.cseq
            &&& u.account == ua.account
            &&& u.calls == ua.calls
            &&& u.call_id == ua.call_id
        }),
{
}

/// A step of a call being placed answers a challenge at most three times in
/// all, uses a new CSeq exactly when it sends a request, and changes neither
/// the account nor the registration.
pub proof fn lemma_invite_step_bounds(
    ua: UaView,
    s: InviteView,
    msg: Option<crate::sip::SipMessageView>,
    branch_id: Seq<char>,
    cnonce: Seq<char>,
)
    requires
        s.retry_count <= 3,
        answers_challenge(ua, s.retry_count, msg) ==> ua.cseq < u32::MAX,
    ensures
        ({
            let (u, t, a) = invite_step(ua, s, msg, branch_id, cnonce);
            &&& t.retry_count <= 3
            &&& a is Send ==> t.retry_count == s.retry_count + 1 && u.cseq == ua.cseq + 1
            &&& !(a is Send) ==> u.cseq == ua.cseq
            &&& u.account == ua.account
            &&& u.reg == ua.reg
            &&& u.call_id == ua.call_id
        }),
{
}

/// Replacing a call of id `id` by another of that id leaves the calls of
/// every other id where they were.
proof fn lemma_update_keeps_others(cs: Seq<CallView>, k: int, x: CallView, id: Seq<char>)
    requires
        0 <= k < cs.len(),
        cs[k].id == id,
        x.id == id,
    ensures
        forall|c: CallView| c.id != id ==> (#[trigger] cs.update(k, x).contains(c) <==> cs.contains(c)),
{
    let us = cs.update(k, x);
    assert forall|c: CallView| c.id != id implies (#[trigger] us.contains(c) <==> cs.contains(c)) by {
        if us.contains(c) {
            let i = choose|i: int| 0 <= i < us.len() && us[i] == c;
            assert(i != k);
            assert(cs[i] == c);
        }
        if cs.contains(c) {
            let i = choose|i: int| 0 <= i < cs.len() && cs[i] == c;
            assert(i != k);
            assert(us[i] == c);
        }
    }
}

/// Removing a call of id `id` leaves the calls of every other id.
proof fn lemma_remove_keeps_others(cs: Seq<CallView>, k: int, id: Seq<char>)
    requires
        0 <= k < cs.len(),
        cs[k].id == id,
    ensures
        forall|c: CallView| c.id != id ==> (#[trigger] cs.remove(k).contains(c) <==> cs.contains(c)),
{
    let rs = cs.remove(k);
    assert forall|c: CallView| c.id != id implies (#[trigger] rs.contains(c) <==> cs.contains(c)) by {
        if rs.contains(c) {
            let i = choose|i: int| 0 <= i < rs.len() && rs[i] == c;
            if i < k {
                assert(cs[i] == c);
            } else {
                assert(cs[i + 1] == c);
            }
        }
        if cs.contains(c) {
            let i = choose|i: int| 0 <= i < cs.len() && cs[i] == c;
            assert(i != k);
            if i < k {
                assert(rs[i] == c);
            } else {
                assert(rs[i - 1] == c);
            }
        }
    }
}

/// A step of a call being placed touches only that call: every call of
/// another id is still there, no other call appears, and at most the call
/// itself goes away.
pub proof fn lemma_invite_step_other_calls(
    ua: UaView,
    s: InviteView,
    msg: Option<crate::sip::SipMessageView>,
    branch_id: Seq<char>,
    cnonce: Seq<char>,
)
    ensures
        ({
            let u = invite_step(ua, s, msg, branch_id, cnonce).0;
            &&& forall|c: CallView| c.id != s.call_id ==> (#[trigger] u.calls.contains(c) <==> ua.calls.contains(c))
            &&& ua.calls.len() - 1 <= u.calls.len() <= ua.calls.len()
        }),
{
    let u = invite_step(ua, s, msg, branch_id, cnonce).0;
    let k = call_index(ua.calls, s.call_id, 0);
    lemma_call_index(ua.calls, s.call_id, 0);
    if k < ua.calls.len() && u.calls != ua.calls {
        if u.calls.len() == ua.calls.len() {
            assert(u.calls[k].id == s.call_id);
            assert(u.calls == ua.calls.update(k, u.calls[k]));
            lemma_update_keeps_others(ua.calls, k, u.calls[k], s.call_id);
        } else {
            assert(u.calls == ua.calls.remove(k));
            lemma_remove_keeps_others(ua.calls, k, s.call_id);
        }
    }
}

proof fn lemma_call_index(calls: Seq<CallView>, id: Seq<char>, i: int)
    requires
        0 <= i <= calls.len(),
    ensures
        i <= call_index(calls, id, i) <= calls.len(),
        call_index(calls, id, i) < calls.len() ==> calls[call_index(calls, id, i)].id == id,
    decreases calls.len() - i,
{
    if i < calls.len() && calls[i].id != id {
        lemma_call_index(calls, id, i + 1);
    }
}

/// What the user dials always becomes a `sip:` URI, and dialling that URI
/// again changes nothing.
pub proof fn lemma_dial_uri(uri: Seq<char>, target: Seq<char>)
    ensures
        has_prefix(dial_uri(uri, target), "sip:"@),
        dial_uri(dial_uri(uri, target), target) == dial_uri(uri, target),
{
    let p = "sip:"@;
    if !has_prefix(uri, p) {
        let r = dial_uri(uri, target);
        if uri.contains('@') {
            assert(r.subrange(0, p.len() as int) == p);
        } else {
            assert(r == p + (uri + "@"@ + target));
            assert(r.subrange(0, p.len() as int) == p);
        }
    }
}

/// The server address always names a port, and one that names a port is kept.
pub proof fn lemma_server_address(target: Seq<char>)
    ensures
        server_address_text(target).contains(':'),
        server_address_text(server_address_text(target)) == server_address_text(target),
{
    reveal_strlit(":5060");
    if !target.contains(':') {
        let r = target + ":5060"@;
        assert(r[target.len() as int] == ':');
    }
}

/// `t` ends with `x`.
pub open spec fn has_suffix(t: Seq<char>, x: Seq<char>) -> bool {
    x.len() <= t.len() && t.subrange(t.len() - x.len(), t.len() as int) == x
}

/// Whether a challenge asks for `qop="auth"`.
pub open spec fn challenge_wants_auth_qop(h: Seq<char>) -> bool {
    quoted_param(h, "qop=\""@) is Some && contains_sub(quoted_param(h, "qop=\""@)->0, "auth"@)
}

/// The digest that answers the challenge `h` for a request with method `m`
/// and URI `uri`: over the challenge's realm and nonce, with the client nonce
/// and count 00000001 when the challenge asks for `qop="auth"`.
pub open spec fn challenge_digest(
    user: Seq<char>,
    password: Seq<char>,
    h: Seq<char>,
    uri: Seq<char>,
    m: MethodView,
    cnonce: Seq<char>,
) -> Seq<char> {
    let realm = or_empty(quoted_param(h, "realm=\""@));
    let nonce = or_empty(quoted_param(h, "nonce=\""@));
    if challenge_wants_auth_qop(h) {
        digest_response_qop(user, password, realm, nonce, cnonce, "00000001"@, "auth"@, method_name(m), uri)
    } else {
        digest_response(user, password, realm, nonce, method_name(m), uri)
    }
}

/// The credentials answering a challenge end with `response="<digest>"`, the
/// digest taken over the challenge's realm and nonce, the method and the URI.
pub proof fn lemma_authorization_response(
    user: Seq<char>,
    password: Seq<char>,
    h: Seq<char>,
    uri: Seq<char>,
    m: MethodView,
    cnonce: Seq<char>,
)
    ensures
        has_suffix(
            authorization_text(user, password, h, uri, m, cnonce),
            "response=\""@ + challenge_digest(user, password, h, uri, m, cnonce) + "\""@,
        ),
{
    reveal_strlit(", response=\"");
    reveal_strlit("\", response=\"");
    reveal_strlit("response=\"");
    let t = authorization_text(user, password, h, uri, m, cnonce);
    let d = challenge_digest(user, password, h, uri, m, cnonce);
    let x = "response=\""@ + d + "\""@;
    let realm = or_empty(quoted_param(h, "realm=\""@));
    let nonce = or_empty(quoted_param(h, "nonce=\""@));
    let base = "Digest username=\""@ + user + "\", realm=\""@ + realm + "\", nonce=\""@ + nonce
        + "\", uri=\""@ + uri + "\""@;
    if challenge_wants_auth_qop(h) {
        let pre = base + ", qop=\"auth\", nc="@ + "00000001"@ + ", cnonce=\""@ + cnonce + seq!['"', ',', ' '];
        assert("\", response=\""@ == seq!['"', ',', ' '] + "response=\""@);
        assert(t == pre + x);
        assert(t.subrange(pre.len() as int, t.len() as int) == x);
    } else {
        let pre = base + seq![',', ' '];
        assert(", response=\""@ == seq![',', ' '] + "response=\""@);
        assert(t == pre + x);
        assert(t.subrange(pre.len() as int, t.len() as int) == x);
    }
}

/// A registration that gets a 401 or 407 with its challenge, for an account
/// with a password and fewer than three challenges answered, sends the
/// REGISTER again, and the request's `Authorization` (or
/// `Proxy-Authorization`) value ends with `response="<digest>"` over the
/// account's user name and password, the challenge's realm and nonce, the
/// method `REGISTER` and the URI `sip:<domain>`.
pub proof fn lemma_register_answers_challenge(
    ua: UaView,
    s: RegisterView,
    res: SipResponseView,
    branch_id: Seq<char>,
    cnonce: Seq<char>,
)
    requires
        res.status_code == 401 || res.status_code == 407,
        s.retry_count < 3,
        header_value(res.headers, challenge_header(res.status_code)) is Some,
        ua.account.password is Some,
        ua.cseq < u32::MAX,
    ensures
        ({
            let (u, t, a) = register_step(
                ua,
                s,
                Some(crate::sip::SipMessageView::Response(res)),
                branch_id,
                cnonce,
            );
            let h = header_value(res.headers, challenge_header(res.status_code))->0;
            &&& a == UaActionView::Send(crate::sip::request_text(t.request))
            &&& header_value(t.request.headers, authorization_header(res.status_code)) matches Some(v)
                && has_suffix(
                v,
                "response=\""@ + challenge_digest(
                    ua.account.username,
                    ua.account.password->0,
                    h,
                    "sip:"@ + ua.account.domain,
                    MethodView::Register,
                    cnonce,
                ) + "\""@,
            )
        }),
{
    let h = header_value(res.headers, challenge_header(res.status_code))->0;
    let p = ua.account.password->0;
    let uri = "sip:"@ + ua.account.domain;
    let answer = authorization_text(ua.account.username, p, h, uri, MethodView::Register, cnonce);
    lemma_authorization_response(ua.account.username, p, h, uri, MethodView::Register, cnonce);
    let n = (ua.cseq + 1) as u32;
    let h1 = crate::sip::header_set(s.request.headers, "Via"@, crate::sip::ua::via_text(s.proto, s.local_addr, branch_id));
    let h2 = crate::sip::header_set(h1, "CSeq"@, crate::sip::ua::cseq_text(n, MethodView::Register));
    lemma_set_then_get(h2, authorization_header(res.status_code), answer);
}

/// A call being placed that gets a 401 or 407 with its challenge, for an
/// account with a password and fewer than three challenges answered, sends
/// the INVITE again, and the request's `Authorization` (or
/// `Proxy-Authorization`) value ends with `response="<digest>"` over the
/// account's user name and password, the challenge's realm and nonce, the
/// method `INVITE` and the called URI.
pub proof fn lemma_invite_answers_challenge(
    ua: UaView,
    s: InviteView,
    res: SipResponseView,
    branch_id: Seq<char>,
    cnonce: Seq<char>,
)
    requires
        res.status_code == 401 || res.status_code == 407,
        s.retry_count < 3,
        header_value(res.headers, challenge_header(res.status_code)) is Some,
        ua.account.password is Some,
        ua.cseq < u32::MAX,
    ensures
        ({
            let (u, t, a) = invite_step(
                ua,
                s,
                Some(crate::sip::SipMessageView::Response(res)),
                branch_id,
                cnonce,
            );
            let h = header_value(res.headers, challenge_header(res.status_code))->0;
            &&& a == UaActionView::Send(crate::sip::request_text(t.request))
            &&& header_value(t.request.headers, authorization_header(res.status_code)) matches Some(v)
                && has_suffix(
                v,
                "response=\""@ + challenge_digest(
                    ua.account.username,
                    ua.account.password->0,
                    h,
                    s.remote_uri,
                    MethodView::Invite,
                    cnonce,
                ) + "\""@,
            )
        }),
{
    let h = header_value(res.headers, challenge_header(res.status_code))->0;
    let p = ua.account.password->0;
    let answer = authorization_text(ua.account.username, p, h, s.remote_uri, MethodView::Invite, cnonce);
    lemma_authorization_response(ua.account.username, p, h, s.remote_uri, MethodView::Invite, cnonce);
    let n = (ua.cseq + 1) as u32;
    let h1 = crate::sip::header_set(s.request.headers, "Via"@, crate::sip::ua::via_text(s.proto, s.local_addr, branch_id));
    let h2 = crate::sip::header_set(h1, "CSeq"@, crate::sip::ua::cseq_text(n, MethodView::Invite));
    lemma_set_then_get(h2, authorization_header(res.status_code), answer);
}

/// The BYE for a call goes where its ACK went: to the call's remote contact
/// when it has one, else to the URI that was called.
pub proof fn lemma_bye_target(
    a: AccountView,
    c: CallView,
    proto: Seq<char>,
    local_addr: Seq<char>,
    branch_id: Seq<char>,
    cseq: u32,
    ack_branch_id: Seq<char>,
    ack_cseq: u32,
)
    ensures
        bye_request(a, c, proto, local_addr, branch_id, cseq).uri == (if c.remote_contact is Some {
            c.remote_contact->0
        } else {
            c.remote_uri
        }),
        bye_request(a, c, proto, local_addr, branch_id, cseq).uri == ack_request(
            a,
            c,
            proto,
            local_addr,
            ack_branch_id,
            ack_cseq,
        ).uri,
{
}

/// After a call is answered with a 200 that names a `Contact`, ending the
/// call sends the BYE to that contact, without its angle brackets.
pub proof fn lemma_bye_after_answer(
    ua: UaView,
    s: InviteView,
    res: SipResponseView,
    branch_id: Seq<char>,
    cnonce: Seq<char>,
    contact: Seq<char>,
    proto: Seq<char>,
    local_addr: Seq<char>,
    bye_branch_id: Seq<char>,
    cseq: u32,
)
    requires
        res.status_code == 200,
        call_index(ua.calls, s.call_id, 0) < ua.calls.len(),
        header_value(res.headers, "Contact"@) == Some(contact),
    ensures
        ({
            let u = invite_step(
                ua,
                s,
                Some(crate::sip::SipMessageView::Response(res)),
                branch_id,
                cnonce,
            ).0;
            let k = call_index(ua.calls, s.call_id, 0);
            &&& k < u.calls.len()
            &&& u.calls[k].id == s.call_id
            &&& bye_request(u.account, u.calls[k], proto, local_addr, bye_branch_id, cseq).uri
                == strip_angles(contact)
        }),
{
    lemma_call_index(ua.calls, s.call_id, 0);
}

/// The peer's RTP address in an answer is the address of its connection
/// line (`c=IN IP4 <address>`) with the port of its first audio description,
/// whatever the other lines hold.
pub proof fn lemma_rtp_address_of_answer(sdp: SdpSessionView, ip: Seq<char>)
    requires
        session_writable(sdp),
        is_token(ip),
        sdp.connection_info == in_ip4() + ip,
        media_index(sdp.media, "audio"@, 0) < sdp.media.len(),
    ensures
        rtp_address(session_text(sdp)) == Some(
            ip + ":"@ + decimal(sdp.media[media_index(sdp.media, "audio"@, 0)].port as nat),
        ),
{
    lemma_session_roundtrip(sdp);
    let sp = seq![' '];
    let in_t = seq!['I', 'N'];
    let ip4_t = seq!['I', 'P', '4'];
    let parts = seq![in_t, ip4_t, ip];
    assert(parts.drop_last() == seq![in_t, ip4_t]);
    assert(seq![in_t, ip4_t].drop_last() == seq![in_t]);
    assert(join(seq![in_t], sp) == in_t);
    assert(join(seq![in_t, ip4_t], sp) == in_t + sp + ip4_t);
    assert(join(parts, sp) == in_t + sp + ip4_t + sp + ip);
    assert(in_ip4() + ip == in_t + sp + ip4_t + sp + ip);
    assert forall|k: int| 0 <= k < parts.len() implies is_token(#[trigger] parts[k]) by {
        if k == 0 {
            assert(parts[k] == in_t);
        } else if k == 1 {
            assert(parts[k] == ip4_t);
        } else {
            assert(parts[k] == ip);
        }
    }
    lemma_tokens_of_join(parts);
    assert(tokens(sdp.connection_info) == parts);
    assert(parts.last() == ip);
}

/// A contact in angle brackets reads as the address inside them.
pub proof fn lemma_strip_angles(x: Seq<char>)
    requires
        x.len() > 0,
        x[0] != '<' && x[0] != '>',
        x.last() != '<' && x.last() != '>',
    ensures
        strip_angles(seq!['<'] + x + seq!['>']) == x,
        strip_angles(x) == x,
{
    let s = seq!['<'] + x + seq!['>'];
    let n = s.len() as int;
    assert(s[1] == x[0]);
    assert(s[n - 2] == x.last());
    assert(crate::sip::ua::skip_angle(s, 1, n) == 1);
    assert(crate::sip::ua::skip_angle(s, 0, n) == 1);
    assert(crate::sip::ua::back_angle(s, 1, n - 1) == n - 1);
    assert(crate::sip::ua::back_angle(s, 1, n) == n - 1);
    assert(s.subrange(1, n - 1) == x);
    let m = x.len() as int;
    assert(crate::sip::ua::skip_angle(x, 0, m) == 0);
    assert(x[m - 1] == x.last());
    assert(crate::sip::ua::back_angle(x, 0, m) == m);
    assert(x.subrange(0, m) == x);
}

/// The `tag` of a `From` or `To` value `<address>;tag=<tag>`: when the part
/// before the `;` holds no `;` and no `=`, and the tag is a token without
/// `;`, the tag is what is read.
pub proof fn lemma_tag_of(a: Seq<char>, t: Seq<char>)
    requires
        !a.contains(';'),
        !a.contains('='),
        is_token(t),
        !t.contains(';'),
    ensures
        tag_from(a + ";tag="@ + t, 0) == Some(t),
{
    reveal_strlit(";tag=");
    reveal_strlit("tag=");
    let h = a + ";tag="@ + t;
    let n = h.len() as int;
    let la = a.len() as int;
    let pos = la + 1;
    assert forall|k: int| 0 <= k < la implies #[trigger] h[k] != ';' by {
        assert(h[k] == a[k]);
        if h[k] == ';' {
            assert(a.contains(';'));
        }
    }
    assert(h[la] == ';');
    lemma_find_char_at(h, ';', 0, n, la);
    lemma_skip_ws(h, 0, la);
    let x = crate::text::skip_ws(h, 0, la);
    lemma_trim_end_at(h, x, la);
    let seg = trimmed(h, 0, la);
    if crate::text::has_prefix(seg, "tag="@) {
        assert(seg.subrange(0, 4) == "tag="@);
        assert(seg.subrange(0, 4)[3] == seg[3]);
        assert(seg[3] == '=');
        let y = crate::text::trim_end_at(h, x, la);
        assert(seg == h.subrange(x, y));
        assert(h[x + 3] == a[x + 3]);
        assert(a.contains('='));
    }
    assert forall|k: int| pos <= k < n implies #[trigger] h[k] != ';' by {
        if k < pos + 4 {
        } else {
            assert(h[k] == t[k - pos - 4]);
            if h[k] == ';' {
                assert(t.contains(';'));
            }
        }
    }
    lemma_find_char_at(h, ';', pos, n, n);
    assert(h[pos] == 't');
    assert(!is_ws('t'));
    lemma_skip_ws_at(h, pos, n, pos);
    assert(h[n - 1] == t.last());
    assert(!is_ws(t[t.len() - 1]));
    lemma_trim_end_at_at(h, pos, n, n);
    assert(trimmed(h, pos, n) == h.subrange(pos, n));
    assert(h.subrange(pos, n) == "tag="@ + t);
    assert(("tag="@ + t).subrange(0, 4) == "tag="@);
    assert(h[pos + 3] == '=');
    lemma_find_char_at(h, '=', pos, n, pos + 3);
    assert(h[pos + 4] == t[0]);
    assert(!is_ws(t[0]));
    lemma_skip_ws_at(h, pos + 4, n, pos + 4);
    lemma_trim_end_at_at(h, pos + 4, n, n);
    assert(h.subrange(pos + 4, n) == t);
    assert(tag_from(h, pos) == Some(t));
    assert(tag_from(h, 0) == tag_from(h, pos));
}

} // verus!
