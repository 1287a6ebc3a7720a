//! The user agent's decisions: the requests it sends to register, to place and
//! to end calls, and how it answers each response, as functions from state and
//! event to new state and action. Sending, receiving, timers and randomness are
//! the caller's part: fresh random tokens come in as arguments.
use vstd::prelude::*;
use crate::common::{Account, AccountView, CallState};
use crate::media::sdp::{
    media_index, new_session, parse_session_text, session_text, SdpMediaDescription, SdpMediaView,
    SdpSession, SdpSessionView,
};
use crate::sip::{
    header_set, header_value, headers_view, method_name, sip_version, Method, MethodView,
    SipHeaderAccess, SipMessage, SipRequest, SipRequestView, SipResponse,
};
use crate::sip::auth::{
    calculate_digest_response, calculate_digest_response_qop, digest_response,
    digest_response_qop,
};
use crate::text::{
    chars_of, contains_str, contains_sub, copy_string, decimal, find_char, find_char_exec,
    find_sub, find_sub_exec, has_prefix, has_prefix_exec, lemma_find_char, lemma_find_sub,
    push_char, push_decimal, push_range, push_str, string_of_range, trimmed, trimmed_string,
    lossy_string, utf8_lossy, tokens, ws_token_ranges,
};
use vstd::utf8::encode_utf8;

verus! {

/// A call placed by the user agent.
#[derive(Debug, Clone)]
pub struct Call {
    pub id: String,
    pub state: CallState,
    pub remote_uri: String,
    pub local_tag: String,
    pub remote_tag: Option<String>,
    pub remote_contact: Option<String>,
    /// The peer's RTP address (`ip:port`), once negotiated and checked to be a
    /// socket address.
    pub remote_rtp_addr: Option<String>,
    pub local_rtp_port: Option<u16>,
}

/// The state of the registration with the server.
#[derive(Debug, Clone, PartialEq, Eq)]
pub enum RegistrationState {
    Unregistered,
    Registering,
    Registered,
    Failed(String),
}

/// The mathematical value of a `RegistrationState`.
pub enum RegistrationView {
    Unregistered,
    Registering,
    Registered,
    Failed(Seq<char>),
}

impl View for RegistrationState {
    type V = RegistrationView;

    open spec fn view(&self) -> RegistrationView {
        match self {
            RegistrationState::Unregistered => RegistrationView::Unregistered,
            RegistrationState::Registering => RegistrationView::Registering,
            RegistrationState::Registered => RegistrationView::Registered,
            RegistrationState::Failed(s) => RegistrationView::Failed(s@),
        }
    }
}

pub open spec fn opt_view(o: Option<String>) -> Option<Seq<char>> {
    match o {
        Some(s) => Some(s@),
        None => None,
    }
}

/// The value of the first `;`-separated segment of `h`, from `pos` on, whose
/// trimmed text starts with `tag=`: the trimmed text after the segment's first `=`.
pub open spec fn tag_from(h: Seq<char>, pos: int) -> Option<Seq<char>>
    decreases h.len() + 1 - pos,
{
    if pos < 0 || pos > h.len() {
        None
    } else {
        let e = find_char(h, ';', pos, h.len() as int);
        proof {
            lemma_find_char(h, ';', pos, h.len() as int);
        }
        if has_prefix(trimmed(h, pos, e), "tag="@) {
            let q = find_char(h, '=', pos, e);
            if q < e {
                Some(trimmed(h, q + 1, e))
            } else {
                None
            }
        } else if e < h.len() {
            tag_from(h, e + 1)
        } else {
            None
        }
    }
}

/// The `tag` parameter of a `From` or `To` header value.
pub fn extract_tag(header: &str) -> (r: Option<String>)
    ensures
        opt_view(r) == tag_from(header@, 0),
{
    let v = chars_of(header);
    let n = v.len();
    let mut pos: usize = 0;
    loop
        invariant
            n == v@.len(),
            v@ == header@,
            pos <= n,
            tag_from(v@, pos as int) == tag_from(v@, 0),
        decreases n - pos,
    {
        let e = find_char_exec(&v, ';', pos, n);
        let seg = trimmed_string(&v, pos, e);
        let sv = chars_of(seg.as_str());
        if has_prefix_exec(&sv, "tag=") {
            let q = find_char_exec(&v, '=', pos, e);
            if q < e {
                return Some(trimmed_string(&v, q + 1, e));
            } else {
                return None;
            }
        }
        if e >= n {
            return None;
        }
        pos = e + 1;
    }
}

/// First index in `[i, j)` that holds neither `<` nor `>`, or `j`.
pub open spec fn skip_angle(s: Seq<char>, i: int, j: int) -> int
    decreases j - i,
{
    if i < j && (s[i] == '<' || s[i] == '>') {
        skip_angle(s, i + 1, j)
    } else {
        i
    }
}

/// The end of `s[i..j]` without its trailing `<` and `>` characters.
pub open spec fn back_angle(s: Seq<char>, i: int, j: int) -> int
    decreases j - i,
{
    if i < j && (s[j - 1] == '<' || s[j - 1] == '>') {
        back_angle(s, i, j - 1)
    } else {
        j
    }
}

/// A text without leading and trailing `<` and `>` characters.
pub open spec fn strip_angles(s: Seq<char>) -> Seq<char> {
    let a = skip_angle(s, 0, s.len() as int);
    s.subrange(a, back_angle(s, a, s.len() as int))
}

proof fn lemma_skip_angle(s: Seq<char>, i: int, j: int)
    requires
        i <= j,
    ensures
        i <= skip_angle(s, i, j) <= j,
    decreases j - i,
{
    if i < j && (s[i] == '<' || s[i] == '>') {
        lemma_skip_angle(s, i + 1, j);
    }
}

proof fn lemma_back_angle(s: Seq<char>, i: int, j: int)
    requires
        i <= j,
    ensures
        i <= back_angle(s, i, j) <= j,
    decreases j - i,
{
    if i < j && (s[j - 1] == '<' || s[j - 1] == '>') {
        lemma_back_angle(s, i, j - 1);
    }
}

/// A contact address without its angle brackets.
pub fn strip_angle_brackets(s: &str) -> (r: String)
    ensures
        r@ == strip_angles(s@),
{
    let v = chars_of(s);
    let n = v.len();
    proof {
        lemma_skip_angle(v@, 0, n as int);
    }
    let mut a: usize = 0;
    while a < n && (v[a] == '<' || v[a] == '>')
        invariant
            n == v@.len(),
            a <= n,
            skip_angle(v@, a as int, n as int) == skip_angle(v@, 0, n as int),
        decreases n - a,
    {
        a = a + 1;
    }
    proof {
        lemma_back_angle(v@, a as int, n as int);
    }
    let mut b: usize = n;
    while b > a && (v[b - 1] == '<' || v[b - 1] == '>')
        invariant
            n == v@.len(),
            a <= b <= n,
            back_angle(v@, a as int, b as int) == back_angle(v@, a as int, n as int),
        decreases b - a,
    {
        b = b - 1;
    }
    string_of_range(&v, a, b)
}

/// The Call-ID of a message, by which responses are routed to the transaction
/// waiting for them.
pub fn message_call_id(msg: &SipMessage) -> (r: Option<String>)
    ensures
        opt_view(r) == header_value(
            match msg {
                SipMessage::Request(q) => headers_view(q.headers@),
                SipMessage::Response(q) => headers_view(q.headers@),
            },
            crate::sip::name_call_id(),
        ),
{
    let h = match msg {
        SipMessage::Request(req) => req.call_id(),
        SipMessage::Response(res) => res.call_id(),
    };
    match h {
        Some(s) => Some(copy_string(s)),
        None => None,
    }
}

/// The host the account's requests go to: its proxy, else its domain.
pub open spec fn server_target(a: Account) -> Seq<char> {
    match a.proxy {
        Some(p) => p@,
        None => a.domain@,
    }
}

/// The host the account's requests go to: its proxy, else its domain.
pub fn account_target(account: &Account) -> (r: String)
    ensures
        r@ == server_target(*account),
{
    match &account.proxy {
        Some(p) => copy_string(p),
        None => copy_string(&account.domain),
    }
}

/// The address to resolve for a target host: the target itself when it names
/// a port (holds `:`), else the target with port 5060.
pub open spec fn server_address_text(target: Seq<char>) -> Seq<char> {
    if target.contains(':') {
        target
    } else {
        target + ":5060"@
    }
}

pub fn server_address(target: &str) -> (r: String)
    ensures
        r@ == server_address_text(target@),
{
    let v = chars_of(target);
    let k = find_char_exec(&v, ':', 0, v.len());
    proof {
        lemma_find_char(v@, ':', 0, v@.len() as int);
        if k < v@.len() {
            assert(v@.contains(':'));
        } else {
            assert(!v@.contains(':'));
        }
    }
    let mut r = String::new();
    push_str(&mut r, target);
    if k >= v.len() {
        push_str(&mut r, ":5060");
    }
    assert(Seq::<char>::empty() + target@ == target@);
    r
}

/// The request URI for what the user dialled: kept when it starts with `sip:`,
/// prefixed with `sip:` when it holds `@`, else `sip:<user>@<target>`.
pub open spec fn dial_uri(uri: Seq<char>, target: Seq<char>) -> Seq<char> {
    if has_prefix(uri, "sip:"@) {
        uri
    } else if uri.contains('@') {
        "sip:"@ + uri
    } else {
        "sip:"@ + uri + "@"@ + target
    }
}

pub fn normalize_dial_uri(uri: &str, target: &str) -> (r: String)
    ensures
        r@ == dial_uri(uri@, target@),
{
    let v = chars_of(uri);
    let mut r = String::new();
    if has_prefix_exec(&v, "sip:") {
        push_str(&mut r, uri);
        assert(Seq::<char>::empty() + uri@ == uri@);
        return r;
    }
    let k = find_char_exec(&v, '@', 0, v.len());
    proof {
        lemma_find_char(v@, '@', 0, v@.len() as int);
        if k < v@.len() {
            assert(v@.contains('@'));
        } else {
            assert(!v@.contains('@'));
        }
    }
    push_str(&mut r, "sip:");
    push_str(&mut r, uri);
    if k >= v.len() {
        push_str(&mut r, "@");
        push_str(&mut r, target);
    }
    assert(Seq::<char>::empty() + "sip:"@ == "sip:"@);
    r
}

/// The status line the window shows for a registration state.
pub open spec fn status_text(s: RegistrationView) -> Seq<char> {
    match s {
        RegistrationView::Unregistered => "Unregistered"@,
        RegistrationView::Registering => "Registering..."@,
        RegistrationView::Registered => "Registered"@,
        RegistrationView::Failed(e) => "Failed: "@ + e,
    }
}

impl RegistrationState {
    pub fn status_text(&self) -> (r: String)
        ensures
            r@ == status_text(self@),
    {
        let mut r = String::new();
        match self {
            RegistrationState::Unregistered => push_str(&mut r, "Unregistered"),
            RegistrationState::Registering => push_str(&mut r, "Registering..."),
            RegistrationState::Registered => push_str(&mut r, "Registered"),
            RegistrationState::Failed(e) => {
                push_str(&mut r, "Failed: ");
                push_str(&mut r, e.as_str());
            },
        }
        assert(Seq::<char>::empty() + "Unregistered"@ == "Unregistered"@);
        assert(Seq::<char>::empty() + "Registering..."@ == "Registering..."@);
        assert(Seq::<char>::empty() + "Registered"@ == "Registered"@);
        assert(Seq::<char>::empty() + "Failed: "@ == "Failed: "@);
        r
    }
}


/// The mathematical value of a `Call`.
pub struct CallView {
    pub id: Seq<char>,
    pub state: CallState,
    pub remote_uri: Seq<char>,
    pub local_tag: Seq<char>,
    pub remote_tag: Option<Seq<char>>,
    pub remote_contact: Option<Seq<char>>,
    pub remote_rtp_addr: Option<Seq<char>>,
    pub local_rtp_port: Option<u16>,
}

impl View for Call {
    type V = CallView;

    open spec fn view(&self) -> CallView {
        CallView {
            id: self.id@,
            state: self.state,
            remote_uri: self.remote_uri@,
            local_tag: self.local_tag@,
            remote_tag: opt_view(self.remote_tag),
            remote_contact: opt_view(self.remote_contact),
            remote_rtp_addr: opt_view(self.remote_rtp_addr),
            local_rtp_port: self.local_rtp_port,
        }
    }
}

pub open spec fn calls_view(c: Seq<Call>) -> Seq<CallView> {
    c.map_values(|x: Call| x@)
}

/// What the user agent keeps between transactions.
pub struct UserAgentState {
    pub account: Account,
    pub call_id: String,
    pub cseq: u32,
    pub active_calls: Vec<Call>,
    pub reg_state: RegistrationState,
}

/// The mathematical value of a `UserAgentState`.
pub struct UaView {
    pub account: AccountView,
    pub call_id: Seq<char>,
    pub cseq: u32,
    pub calls: Seq<CallView>,
    pub reg: RegistrationView,
}

impl View for UserAgentState {
    type V = UaView;

    open spec fn view(&self) -> UaView {
        UaView {
            account: self.account@,
            call_id: self.call_id@,
            cseq: self.cseq,
            calls: calls_view(self.active_calls@),
            reg: self.reg_state@,
        }
    }
}

/// `z9hG4bK` (the RFC 3261 branch cookie) followed by a random token.
pub open spec fn branch_text(id: Seq<char>) -> Seq<char> {
    "z9hG4bK"@ + id
}

/// `SIP/2.0/<proto> <local address>;branch=<branch>`.
pub open spec fn via_text(proto: Seq<char>, local_addr: Seq<char>, branch_id: Seq<char>) -> Seq<char> {
    "SIP/2.0/"@ + proto + " "@ + local_addr + ";branch="@ + branch_text(branch_id)
}

/// `<sip:<user>@<host>>`.
pub open spec fn aor_text(user: Seq<char>, host: Seq<char>) -> Seq<char> {
    "<sip:"@ + user + "@"@ + host + ">"@
}

/// `<sip:<user>@<host>>;tag=<tag>`.
pub open spec fn tagged_aor_text(user: Seq<char>, host: Seq<char>, tag: Seq<char>) -> Seq<char> {
    aor_text(user, host) + ";tag="@ + tag
}

/// `<number> <METHOD>`.
pub open spec fn cseq_text(n: u32, m: MethodView) -> Seq<char> {
    decimal(n as nat) + seq![' '] + method_name(m)
}

/// The REGISTER request for an account.
pub open spec fn register_request(
    a: AccountView,
    proto: Seq<char>,
    local_addr: Seq<char>,
    branch_id: Seq<char>,
    tag: Seq<char>,
    cid: Seq<char>,
    cseq: u32,
) -> SipRequestView {
    let h = header_set(seq![], "Via"@, via_text(proto, local_addr, branch_id));
    let h = header_set(h, "From"@, tagged_aor_text(a.username, a.domain, tag));
    let h = header_set(h, "To"@, aor_text(a.username, a.domain));
    let h = header_set(h, "Call-ID"@, cid);
    let h = header_set(h, "CSeq"@, cseq_text(cseq, MethodView::Register));
    let h = header_set(h, "Contact"@, aor_text(a.username, local_addr));
    let h = header_set(h, "User-Agent"@, "Softphone/0.1.0"@);
    let h = header_set(h, "Max-Forwards"@, "70"@);
    SipRequestView {
        method: MethodView::Register,
        uri: "sip:"@ + a.domain,
        version: sip_version(),
        headers: h,
        body: seq![],
    }
}

fn via_string(proto: &str, local_addr: &str, branch_id: &str) -> (r: String)
    ensures
        r@ == via_text(proto@, local_addr@, branch_id@),
{
    let mut r = String::new();
    push_str(&mut r, "SIP/2.0/");
    push_str(&mut r, proto);
    push_str(&mut r, " ");
    push_str(&mut r, local_addr);
    push_str(&mut r, ";branch=");
    push_str(&mut r, "z9hG4bK");
    push_str(&mut r, branch_id);
    assert(Seq::<char>::empty() + "SIP/2.0/"@ == "SIP/2.0/"@);
    r
}

fn aor_string(user: &str, host: &str) -> (r: String)
    ensures
        r@ == aor_text(user@, host@),
{
    let mut r = String::new();
    push_str(&mut r, "<sip:");
    push_str(&mut r, user);
    push_str(&mut r, "@");
    push_str(&mut r, host);
    push_str(&mut r, ">");
    assert(Seq::<char>::empty() + "<sip:"@ == "<sip:"@);
    r
}

fn tagged_aor_string(user: &str, host: &str, tag: &str) -> (r: String)
    ensures
        r@ == tagged_aor_text(user@, host@, tag@),
{
    let mut r = aor_string(user, host);
    push_str(&mut r, ";tag=");
    push_str(&mut r, tag);
    r
}

fn cseq_string(n: u32, m: &Method) -> (r: String)
    ensures
        r@ == cseq_text(n, m@),
{
    let mut r = String::new();
    push_decimal(&mut r, n as u64);
    push_char(&mut r, ' ');
    let name = m.to_string();
    push_str(&mut r, name.as_str());
    assert(Seq::<char>::empty() + decimal(n as nat) == decimal(n as nat));
    r
}

/// The value of the first `key` (such as `realm="`) in a challenge: the text
/// after it up to the next `"`, the next occurrence of `key` or the end,
/// whichever comes first; nothing when `key` does not occur.
pub open spec fn quoted_param(h: Seq<char>, key: Seq<char>) -> Option<Seq<char>> {
    let k = find_sub(h, key, 0);
    if k < 0 {
        None
    } else {
        let a = k + key.len();
        let n = find_sub(h, key, a);
        let stop = if n < 0 {
            h.len() as int
        } else {
            n
        };
        Some(h.subrange(a, find_char(h, '"', a, stop)))
    }
}

pub open spec fn or_empty(o: Option<Seq<char>>) -> Seq<char> {
    match o {
        Some(x) => x,
        None => seq![],
    }
}

fn quoted_param_exec(h: &Vec<char>, key: &str) -> (r: Option<String>)
    ensures
        opt_view(r) == quoted_param(h@, key@),
{
    let kv = chars_of(key);
    match find_sub_exec(h, &kv, 0) {
        None => None,
        Some(k) => {
            proof {
                lemma_find_sub(h@, kv@, 0);
            }
            assert(k + kv@.len() <= h@.len());
            assert(h@.len() == h.len());
            let a = k + kv.len();
            let stop = match find_sub_exec(h, &kv, a) {
                Some(n) => {
                    proof {
                        lemma_find_sub(h@, kv@, a as int);
                    }
                    n
                },
                None => h.len(),
            };
            let e = find_char_exec(h, '"', a, stop);
            Some(string_of_range(h, a, e))
        },
    }
}

/// The `Authorization` value answering the challenge `h` for a request with
/// method `m` and digest URI `uri`: `Digest username, realm, nonce, uri`, then,
/// when the challenge's `qop` holds `auth`, `qop="auth", nc=00000001, cnonce`
/// and the `qop` digest, else the plain digest.
pub open spec fn authorization_text(
    user: Seq<char>,
    password: Seq<char>,
    h: Seq<char>,
    uri: Seq<char>,
    m: MethodView,
    cnonce: Seq<char>,
) -> Seq<char> {
    let realm = or_empty(quoted_param(h, "realm=\""@));
    let nonce = or_empty(quoted_param(h, "nonce=\""@));
    let qop = quoted_param(h, "qop=\""@);
    let base = "Digest username=\""@ + user + "\", realm=\""@ + realm + "\", nonce=\""@ + nonce
        + "\", uri=\""@ + uri + "\""@;
    if qop is Some && contains_sub(qop->0, "auth"@) {
        base + ", qop=\"auth\", nc="@ + "00000001"@ + ", cnonce=\""@ + cnonce + "\", response=\""@
            + digest_response_qop(
            user,
            password,
            realm,
            nonce,
            cnonce,
            "00000001"@,
            "auth"@,
            method_name(m),
            uri,
        ) + "\""@
    } else {
        base + ", response=\""@ + digest_response(user, password, realm, nonce, method_name(m), uri)
            + "\""@
    }
}

fn authorization_string(
    user: &str,
    password: &str,
    h: &str,
    uri: &str,
    m: &Method,
    cnonce: &str,
) -> (r: String)
    ensures
        r@ == authorization_text(user@, password@, h@, uri@, m@, cnonce@),
{
    let hv = chars_of(h);
    let realm = match quoted_param_exec(&hv, "realm=\"") {
        Some(x) => x,
        None => String::new(),
    };
    let nonce = match quoted_param_exec(&hv, "nonce=\"") {
        Some(x) => x,
        None => String::new(),
    };
    let qop = quoted_param_exec(&hv, "qop=\"");
    let method_str = m.to_string();
    let mut r = String::new();
    push_str(&mut r, "Digest username=\"");
    push_str(&mut r, user);
    push_str(&mut r, "\", realm=\"");
    push_str(&mut r, realm.as_str());
    push_str(&mut r, "\", nonce=\"");
    push_str(&mut r, nonce.as_str());
    push_str(&mut r, "\", uri=\"");
    push_str(&mut r, uri);
    push_str(&mut r, "\"");
    assert(Seq::<char>::empty() + "Digest username=\""@ == "Digest username=\""@);
    let with_qop = match &qop {
        Some(q) => contains_str(q.as_str(), "auth"),
        None => false,
    };
    if with_qop {
        let response = calculate_digest_response_qop(
            user,
            password,
            realm.as_str(),
            nonce.as_str(),
            cnonce,
            "00000001",
            "auth",
            method_str.as_str(),
            uri,
        );
        push_str(&mut r, ", qop=\"auth\", nc=");
        push_str(&mut r, "00000001");
        push_str(&mut r, ", cnonce=\"");
        push_str(&mut r, cnonce);
        push_str(&mut r, "\", response=\"");
        push_str(&mut r, response.as_str());
        push_str(&mut r, "\"");
    } else {
        let response = calculate_digest_response(
            user,
            password,
            realm.as_str(),
            nonce.as_str(),
            method_str.as_str(),
            uri,
        );
        push_str(&mut r, ", response=\"");
        push_str(&mut r, response.as_str());
        push_str(&mut r, "\"");
    }
    r
}

/// The challenge header a 401 or 407 response carries.
pub open spec fn challenge_header(code: u16) -> Seq<char> {
    if code == 401 {
        "WWW-Authenticate"@
    } else {
        "Proxy-Authenticate"@
    }
}

/// The header that answers a 401 or 407 challenge.
pub open spec fn authorization_header(code: u16) -> Seq<char> {
    if code == 401 {
        "Authorization"@
    } else {
        "Proxy-Authorization"@
    }
}

/// A request re-sent with credentials: a new branch in `Via`, the next `CSeq`,
/// and the answer to the challenge.
pub open spec fn authorized_request(
    req: SipRequestView,
    code: u16,
    answer: Seq<char>,
    proto: Seq<char>,
    local_addr: Seq<char>,
    branch_id: Seq<char>,
    cseq: u32,
    m: MethodView,
) -> SipRequestView {
    let h = header_set(req.headers, "Via"@, via_text(proto, local_addr, branch_id));
    let h = header_set(h, "CSeq"@, cseq_text(cseq, m));
    let h = header_set(h, authorization_header(code), answer);
    SipRequestView { headers: h, ..req }
}

/// `Status <code>`.
pub open spec fn status_failure(code: u16) -> Seq<char> {
    "Status "@ + decimal(code as nat)
}

/// What the caller does next in a transaction.
pub enum UaAction {
    /// Send this text to the server and keep waiting.
    Send(String),
    /// Keep waiting for the next message.
    Wait,
    /// The transaction is over.
    Done,
    /// Stop with this error.
    Abort(String),
    /// The call was answered: send this ACK; the peer's RTP address, if its
    /// answer gave one, is to be recorded once it is checked to be a socket address.
    Answered(String, Option<String>),
}

pub enum UaActionView {
    Send(Seq<char>),
    Wait,
    Done,
    Abort(Seq<char>),
    Answered(Seq<char>, Option<Seq<char>>),
}

impl View for UaAction {
    type V = UaActionView;

    open spec fn view(&self) -> UaActionView {
        match self {
            UaAction::Send(s) => UaActionView::Send(s@),
            UaAction::Wait => UaActionView::Wait,
            UaAction::Done => UaActionView::Done,
            UaAction::Abort(s) => UaActionView::Abort(s@),
            UaAction::Answered(a, r) => UaActionView::Answered(a@, opt_view(*r)),
        }
    }
}

/// A registration in progress.
pub struct RegisterSession {
    pub request: SipRequest,
    pub retry_count: u32,
    pub proto: String,
    pub local_addr: String,
}

pub struct RegisterView {
    pub request: SipRequestView,
    pub retry_count: u32,
    pub proto: Seq<char>,
    pub local_addr: Seq<char>,
}

impl View for RegisterSession {
    type V = RegisterView;

    open spec fn view(&self) -> RegisterView {
        RegisterView {
            request: self.request@,
            retry_count: self.retry_count,
            proto: self.proto@,
            local_addr: self.local_addr@,
        }
    }
}

pub open spec fn opt_message_view(m: Option<SipMessage>) -> Option<crate::sip::SipMessageView> {
    match m {
        Some(x) => Some(x@),
        None => None,
    }
}

/// A response that the user agent answers with credentials, and so with a
/// new CSeq: a 401 or 407 carrying its challenge header, while fewer than
/// three have been answered, for an account with a password.
pub open spec fn answers_challenge(
    ua: UaView,
    retry_count: u32,
    msg: Option<crate::sip::SipMessageView>,
) -> bool {
    match msg {
        Some(crate::sip::SipMessageView::Response(res)) => {
            &&& (res.status_code == 401 || res.status_code == 407)
            &&& retry_count < 3
            &&& header_value(res.headers, challenge_header(res.status_code)) is Some
            &&& ua.account.password is Some
        },
        _ => false,
    }
}

/// How a registration answers one event: the next message, or `None` when
/// none came in time. A 200 registers; a 401 or 407 is answered with
/// credentials up to three times; another final failure (400 and up) fails the
/// registration; provisional responses and requests are waited past.
pub open spec fn register_step(
    ua: UaView,
    s: RegisterView,
    msg: Option<crate::sip::SipMessageView>,
    branch_id: Seq<char>,
    cnonce: Seq<char>,
) -> (UaView, RegisterView, UaActionView) {
    match msg {
        None => (UaView { reg: RegistrationView::Failed("Timeout"@), ..ua }, s, UaActionView::Done),
        Some(crate::sip::SipMessageView::Request(_)) => (ua, s, UaActionView::Wait),
        Some(crate::sip::SipMessageView::Response(res)) => {
            let code = res.status_code;
            if code == 200 {
                (UaView { reg: RegistrationView::Registered, ..ua }, s, UaActionView::Done)
            } else if (code == 401 || code == 407) && s.retry_count < 3 {
                let s1 = RegisterView { retry_count: (s.retry_count + 1) as u32, ..s };
                match header_value(res.headers, challenge_header(code)) {
                    Some(h) => match ua.account.password {
                        None => (ua, s1, UaActionView::Abort("Password required"@)),
                        Some(p) => {
                            let n = (ua.cseq + 1) as u32;
                            let answer = authorization_text(
                                ua.account.username,
                                p,
                                h,
                                "sip:"@ + ua.account.domain,
                                MethodView::Register,
                                cnonce,
                            );
                            let req = authorized_request(
                                s.request,
                                code,
                                answer,
                                s.proto,
                                s.local_addr,
                                branch_id,
                                n,
                                MethodView::Register,
                            );
                            (
                                UaView { cseq: n, ..ua },
                                RegisterView { request: req, ..s1 },
                                UaActionView::Send(crate::sip::request_text(req)),
                            )
                        },
                    },
                    None => (
                        UaView { reg: RegistrationView::Failed(status_failure(code)), ..ua },
                        s1,
                        UaActionView::Done,
                    ),
                }
            } else if code >= 400 {
                (
                    UaView { reg: RegistrationView::Failed(status_failure(code)), ..ua },
                    s,
                    UaActionView::Done,
                )
            } else {
                (ua, s, UaActionView::Wait)
            }
        },
    }
}

fn failure(s: &str) -> (r: RegistrationState)
    ensures
        r@ == RegistrationView::Failed(s@),
{
    let mut t = String::new();
    push_str(&mut t, s);
    assert(Seq::<char>::empty() + s@ == s@);
    RegistrationState::Failed(t)
}

/// Answers a 401 or 407: sets the new `Via`, `CSeq` and credentials on `req`.
fn authorize(
    req: &mut SipRequest,
    code: u16,
    answer: &str,
    proto: &str,
    local_addr: &str,
    branch_id: &str,
    cseq: u32,
    m: &Method,
)
    ensures
        final(req)@ == authorized_request(
            old(req)@,
            code,
            answer@,
            proto@,
            local_addr@,
            branch_id@,
            cseq,
            m@,
        ),
{
    let via = via_string(proto, local_addr, branch_id);
    req.set_header("Via", via.as_str());
    let c = cseq_string(cseq, m);
    req.set_header("CSeq", c.as_str());
    if code == 401 {
        req.set_header("Authorization", answer);
    } else {
        req.set_header("Proxy-Authorization", answer);
    }
}

impl UserAgentState {
    /// Whether `message` is a challenge that would be answered with
    /// credentials, and so with a new CSeq (see `answers_challenge`).
    pub fn would_answer_challenge(&self, retry_count: u32, message: &Option<SipMessage>) -> (r: bool)
        ensures
            r == answers_challenge(self@, retry_count, opt_message_view(*message)),
    {
        match message {
            Some(SipMessage::Response(res)) => {
                let code = res.status_code;
                if !((code == 401 || code == 407) && retry_count < 3) {
                    return false;
                }
                let h = if code == 401 {
                    res.get_header("WWW-Authenticate")
                } else {
                    res.get_header("Proxy-Authenticate")
                };
                h.is_some() && self.account.password.is_some()
            },
            _ => false,
        }
    }

    /// A user agent for `account`, with CSeq 1, no calls, not registered.
    pub fn new(account: Account, call_id: String) -> (ua: Self)
        ensures
            ua@ == (UaView {
                account: account@,
                call_id: call_id@,
                cseq: 1,
                calls: seq![],
                reg: RegistrationView::Unregistered,
            }),
    {
        let ua = UserAgentState {
            account,
            call_id,
            cseq: 1,
            active_calls: Vec::new(),
            reg_state: RegistrationState::Unregistered,
        };
        assert(calls_view(ua.active_calls@) == Seq::<CallView>::empty());
        ua
    }

    /// Starts a registration: the state becomes `Registering` and the REGISTER
    /// request to send is made from the account, the transport protocol, the
    /// local address and fresh Call-ID, branch and tag tokens.
    pub fn start_register(
        &mut self,
        proto: &str,
        local_addr: &str,
        call_id: &str,
        branch_id: &str,
        from_tag: &str,
    ) -> (s: RegisterSession)
        ensures
            final(self)@ == (UaView { reg: RegistrationView::Registering, ..old(self)@ }),
            s@ == (RegisterView {
                request: register_request(
                    old(self)@.account,
                    proto@,
                    local_addr@,
                    branch_id@,
                    from_tag@,
                    call_id@,
                    old(self).cseq,
                ),
                retry_count: 0,
                proto: proto@,
                local_addr: local_addr@,
            }),
    {
        self.reg_state = RegistrationState::Registering;
        let mut uri = String::new();
        push_str(&mut uri, "sip:");
        push_str(&mut uri, self.account.domain.as_str());
        assert(Seq::<char>::empty() + "sip:"@ == "sip:"@);
        let via = via_string(proto, local_addr, branch_id);
        let from = tagged_aor_string(self.account.username.as_str(), self.account.domain.as_str(), from_tag);
        let to = aor_string(self.account.username.as_str(), self.account.domain.as_str());
        let cseq = cseq_string(self.cseq, &Method::Register);
        let contact = aor_string(self.account.username.as_str(), local_addr);
        let req = SipRequest::new(Method::Register, uri.as_str())
            .with_header("Via", via.as_str())
            .with_header("From", from.as_str())
            .with_header("To", to.as_str())
            .with_header("Call-ID", call_id)
            .with_header("CSeq", cseq.as_str())
            .with_header("Contact", contact.as_str())
            .with_header("User-Agent", "Softphone/0.1.0")
            .with_header("Max-Forwards", "70");
        RegisterSession {
            request: req,
            retry_count: 0,
            proto: copy_string_from(proto),
            local_addr: copy_string_from(local_addr),
        }
    }

    /// Handles the next event of a registration (see `register_step`).
    /// `branch_id` and `cnonce` are fresh random tokens for a re-sent request.
    pub fn on_register_event(
        &mut self,
        session: &mut RegisterSession,
        message: Option<SipMessage>,
        branch_id: &str,
        cnonce: &str,
    ) -> (a: UaAction)
        requires
            answers_challenge(old(self)@, old(session).retry_count, opt_message_view(message)) ==> old(self).cseq < u32::MAX,
        ensures
            (final(self)@, final(session)@, a@) == register_step(
                old(self)@,
                old(session)@,
                opt_message_view(message),
                branch_id@,
                cnonce@,
            ),
    {
        match message {
            None => {
                self.reg_state = failure("Timeout");
                UaAction::Done
            },
            Some(SipMessage::Request(_)) => UaAction::Wait,
            Some(SipMessage::Response(res)) => {
                let code = res.status_code;
                if code == 200 {
                    self.reg_state = RegistrationState::Registered;
                    return UaAction::Done;
                }
                if (code == 401 || code == 407) && session.retry_count < 3 {
                    session.retry_count = session.retry_count + 1;
                    let h = if code == 401 {
                        res.get_header("WWW-Authenticate")
                    } else {
                        res.get_header("Proxy-Authenticate")
                    };
                    match h {
                        Some(h) => {
                            match &self.account.password {
                                None => {
                                    let mut e = String::new();
                                    push_str(&mut e, "Password required");
                                    assert(Seq::<char>::empty() + "Password required"@
                                        == "Password required"@);
                                    return UaAction::Abort(e);
                                },
                                Some(p) => {
                                    let n = self.cseq + 1;
                                    let mut uri = String::new();
                                    push_str(&mut uri, "sip:");
                                    push_str(&mut uri, self.account.domain.as_str());
                                    assert(Seq::<char>::empty() + "sip:"@ == "sip:"@);
                                    let answer = authorization_string(
                                        self.account.username.as_str(),
                                        p.as_str(),
                                        h.as_str(),
                                        uri.as_str(),
                                        &Method::Register,
                                        cnonce,
                                    );
                                    self.cseq = n;
                                    authorize(
                                        &mut session.request,
                                        code,
                                        answer.as_str(),
                                        session.proto.as_str(),
                                        session.local_addr.as_str(),
                                        branch_id,
                                        n,
                                        &Method::Register,
                                    );
                                    return UaAction::Send(session.request.to_string());
                                },
                            }
                        },
                        None => {},
                    }
                }
                if code >= 400 {
                    let mut e = String::new();
                    push_str(&mut e, "Status ");
                    push_decimal(&mut e, code as u64);
                    assert(Seq::<char>::empty() + "Status "@ == "Status "@);
                    self.reg_state = RegistrationState::Failed(e);
                    return UaAction::Done;
                }
                UaAction::Wait
            },
        }
    }
}

fn copy_string_from(s: &str) -> (r: String)
    ensures
        r@ == s@,
{
    let mut r = String::new();
    push_str(&mut r, s);
    assert(Seq::<char>::empty() + s@ == s@);
    r
}


/// The host part of a local `host:port` address: the text before its first `:`.
pub open spec fn host_of(addr: Seq<char>) -> Seq<char> {
    addr.subrange(0, find_char(addr, ':', 0, addr.len() as int))
}

/// The audio offer: port 4000, RTP/AVP, PCMU (0) and PCMA (8).
pub open spec fn audio_offer() -> SdpMediaView {
    SdpMediaView {
        media_type: "audio"@,
        port: 4000,
        transport: "RTP/AVP"@,
        formats: seq!["0"@, "8"@],
        attributes: seq!["rtpmap:0 PCMU/8000"@, "rtpmap:8 PCMA/8000"@],
    }
}

/// The session description an INVITE offers.
pub open spec fn offer_session(user: Seq<char>, local_addr: Seq<char>) -> SdpSessionView {
    SdpSessionView {
        media: seq![audio_offer()],
        ..new_session(user, "CallSession"@, host_of(local_addr))
    }
}

/// The INVITE request for a call to `remote_uri`, carrying the offer.
pub open spec fn invite_request(
    a: AccountView,
    remote_uri: Seq<char>,
    proto: Seq<char>,
    local_addr: Seq<char>,
    branch_id: Seq<char>,
    tag: Seq<char>,
    cid: Seq<char>,
    cseq: u32,
) -> SipRequestView {
    let h = header_set(seq![], "Via"@, via_text(proto, local_addr, branch_id));
    let h = header_set(h, "From"@, tagged_aor_text(a.username, a.domain, tag));
    let h = header_set(h, "To"@, "<"@ + remote_uri + ">"@);
    let h = header_set(h, "Call-ID"@, cid);
    let h = header_set(h, "CSeq"@, cseq_text(cseq, MethodView::Invite));
    let h = header_set(h, "Contact"@, aor_text(a.username, local_addr));
    let h = header_set(h, "Content-Type"@, "application/sdp"@);
    let h = header_set(h, "User-Agent"@, "Softphone/0.1.0"@);
    let h = header_set(h, "Max-Forwards"@, "70"@);
    SipRequestView {
        method: MethodView::Invite,
        uri: remote_uri,
        version: sip_version(),
        headers: h,
        body: encode_utf8(session_text(offer_session(a.username, local_addr))),
    }
}

/// A call being placed.
pub struct InviteSession {
    pub request: SipRequest,
    pub call_id: String,
    pub remote_uri: String,
    pub local_tag: String,
    pub retry_count: u32,
    pub proto: String,
    pub local_addr: String,
}

pub struct InviteView {
    pub request: SipRequestView,
    pub call_id: Seq<char>,
    pub remote_uri: Seq<char>,
    pub local_tag: Seq<char>,
    pub retry_count: u32,
    pub proto: Seq<char>,
    pub local_addr: Seq<char>,
}

impl View for InviteSession {
    type V = InviteView;

    open spec fn view(&self) -> InviteView {
        InviteView {
            request: self.request@,
            call_id: self.call_id@,
            remote_uri: self.remote_uri@,
            local_tag: self.local_tag@,
            retry_count: self.retry_count,
            proto: self.proto@,
            local_addr: self.local_addr@,
        }
    }
}

/// Index of the first call with id `id`, or the number of calls.
pub open spec fn call_index(calls: Seq<CallView>, id: Seq<char>, i: int) -> int
    decreases calls.len() - i,
{
    if i >= calls.len() {
        calls.len() as int
    } else if calls[i].id == id {
        i
    } else {
        call_index(calls, id, i + 1)
    }
}

/// The call that an answered INVITE starts: calling, RTP port 4000 locally.
pub open spec fn new_call(s: InviteView) -> CallView {
    CallView {
        id: s.call_id,
        state: CallState::Calling,
        remote_uri: s.remote_uri,
        local_tag: s.local_tag,
        remote_tag: None,
        remote_contact: None,
        remote_rtp_addr: None,
        local_rtp_port: Some(4000),
    }
}

/// The call with the remote tag and contact a response gave, where it gave them.
pub open spec fn with_dialog(c: CallView, tag: Option<Seq<char>>, contact: Option<Seq<char>>) -> CallView {
    CallView {
        remote_tag: if tag is Some {
            tag
        } else {
            c.remote_tag
        },
        remote_contact: if contact is Some {
            contact
        } else {
            c.remote_contact
        },
        ..c
    }
}

pub open spec fn opt_strip_angles(o: Option<Seq<char>>) -> Option<Seq<char>> {
    match o {
        Some(x) => Some(strip_angles(x)),
        None => None,
    }
}

pub open spec fn opt_tag(o: Option<Seq<char>>) -> Option<Seq<char>> {
    match o {
        Some(x) => tag_from(x, 0),
        None => None,
    }
}

/// The peer's RTP address in an answer: the port of its first audio media
/// description after the last token of its connection line (`0.0.0.0` when
/// that line is empty); nothing when the answer does not parse or has no audio.
pub open spec fn rtp_address(body: Seq<char>) -> Option<Seq<char>> {
    match parse_session_text(body) {
        None => None,
        Some(sdp) => {
            let k = media_index(sdp.media, "audio"@, 0);
            if k < sdp.media.len() {
                let t = tokens(sdp.connection_info);
                let ip = if t.len() > 0 {
                    t.last()
                } else {
                    "0.0.0.0"@
                };
                Some(ip + ":"@ + decimal(sdp.media[k].port as nat))
            } else {
                None
            }
        },
    }
}

/// The ACK for an answered call.
pub open spec fn ack_request(
    a: AccountView,
    c: CallView,
    proto: Seq<char>,
    local_addr: Seq<char>,
    branch_id: Seq<char>,
    cseq: u32,
) -> SipRequestView {
    let h = header_set(seq![], "Via"@, via_text(proto, local_addr, branch_id));
    let h = header_set(h, "From"@, tagged_aor_text(a.username, a.domain, c.local_tag));
    let h = header_set(h, "To"@, "<"@ + c.remote_uri + ">;tag="@ + or_empty(c.remote_tag));
    let h = header_set(h, "Call-ID"@, c.id);
    let h = header_set(h, "CSeq"@, cseq_text(cseq, MethodView::Ack));
    let h = header_set(h, "Max-Forwards"@, "70"@);
    SipRequestView {
        method: MethodView::Ack,
        uri: match c.remote_contact {
            Some(x) => x,
            None => c.remote_uri,
        },
        version: sip_version(),
        headers: h,
        body: seq![],
    }
}

/// How a call being placed answers one event: the next message, or `None`
/// when none came in time (the call is left as it is). Each response first
/// records the remote tag and contact on the call; 180 and 183 make it ring;
/// 200 connects it and is acknowledged; a 401 or 407 is answered with
/// credentials up to three times; another final failure (400 and up) drops
/// the call; other responses and requests are waited past.
pub open spec fn invite_step(
    ua: UaView,
    s: InviteView,
    msg: Option<crate::sip::SipMessageView>,
    branch_id: Seq<char>,
    cnonce: Seq<char>,
) -> (UaView, InviteView, UaActionView) {
    match msg {
        None => (ua, s, UaActionView::Done),
        Some(crate::sip::SipMessageView::Request(_)) => (ua, s, UaActionView::Wait),
        Some(crate::sip::SipMessageView::Response(res)) => {
            let code = res.status_code;
            let tag = opt_tag(header_value(res.headers, "To"@));
            let contact = opt_strip_angles(header_value(res.headers, "Contact"@));
            let k = call_index(ua.calls, s.call_id, 0);
            let found = k < ua.calls.len();
            let ua1 = if found {
                UaView { calls: ua.calls.update(k, with_dialog(ua.calls[k], tag, contact)), ..ua }
            } else {
                ua
            };
            if code == 100 || code == 180 || code == 183 {
                if found && (code == 180 || code == 183) {
                    (
                        UaView {
                            calls: ua1.calls.update(k, CallView { state: CallState::Ringing, ..ua1.calls[k] }),
                            ..ua1
                        },
                        s,
                        UaActionView::Wait,
                    )
                } else {
                    (ua1, s, UaActionView::Wait)
                }
            } else if code == 200 {
                if found {
                    let rtp = rtp_address(utf8_lossy(res.body));
                    let c = CallView { state: CallState::Connected, ..ua1.calls[k] };
                    let ack = ack_request(ua1.account, c, s.proto, s.local_addr, branch_id, ua1.cseq);
                    (
                        UaView { calls: ua1.calls.update(k, c), ..ua1 },
                        s,
                        UaActionView::Answered(crate::sip::request_text(ack), rtp),
                    )
                } else {
                    (ua1, s, UaActionView::Done)
                }
            } else if (code == 401 || code == 407) && s.retry_count < 3 && header_value(
                res.headers,
                challenge_header(code),
            ) is Some {
                let s1 = InviteView { retry_count: (s.retry_count + 1) as u32, ..s };
                let h = header_value(res.headers, challenge_header(code))->0;
                match ua1.account.password {
                    None => (ua1, s1, UaActionView::Abort("Password required"@)),
                    Some(p) => {
                        let n = (ua1.cseq + 1) as u32;
                        let answer = authorization_text(
                            ua1.account.username,
                            p,
                            h,
                            s.remote_uri,
                            MethodView::Invite,
                            cnonce,
                        );
                        let req = authorized_request(
                            s.request,
                            code,
                            answer,
                            s.proto,
                            s.local_addr,
                            branch_id,
                            n,
                            MethodView::Invite,
                        );
                        (
                            UaView { cseq: n, ..ua1 },
                            InviteView { request: req, ..s1 },
                            UaActionView::Send(crate::sip::request_text(req)),
                        )
                    },
                }
            } else {
                let s1 = if (code == 401 || code == 407) && s.retry_count < 3 {
                    InviteView { retry_count: (s.retry_count + 1) as u32, ..s }
                } else {
                    s
                };
                if code >= 400 {
                    (
                        if found {
                            UaView { calls: ua1.calls.remove(k), ..ua1 }
                        } else {
                            ua1
                        },
                        s1,
                        UaActionView::Done,
                    )
                } else {
                    (ua1, s1, UaActionView::Wait)
                }
            }
        },
    }
}

pub fn rtp_address_of(body: &str) -> (r: Option<String>)
    ensures
        opt_view(r) == rtp_address(body@),
{
    match SdpSession::parse(body) {
        None => None,
        Some(sdp) => {
            let audio = copy_string_from("audio");
            let k = crate::media::sdp::media_index_exec(&sdp.media_descriptions, &audio);
            if k < sdp.media_descriptions.len() {
                let cv = chars_of(sdp.connection_info.as_str());
                let toks = ws_token_ranges(&cv, 0, cv.len());
                let ghost t = tokens(cv@);
                let mut r = if toks.len() > 0 {
                    let last = toks.len() - 1;
                    assert(crate::text::range_texts(cv@, toks@)[last as int] == t.last());
                    string_of_range(&cv, toks[last].0, toks[last].1)
                } else {
                    copy_string_from("0.0.0.0")
                };
                push_str(&mut r, ":");
                push_decimal(&mut r, sdp.media_descriptions[k].port as u64);
                Some(r)
            } else {
                None
            }
        },
    }
}

fn copy_opt(o: &Option<String>) -> (r: Option<String>)
    ensures
        opt_view(r) == opt_view(*o),
{
    match o {
        Some(s) => Some(copy_string(s)),
        None => None,
    }
}

fn copy_call(c: &Call) -> (r: Call)
    ensures
        r@ == c@,
{
    Call {
        id: copy_string(&c.id),
        state: c.state,
        remote_uri: copy_string(&c.remote_uri),
        local_tag: copy_string(&c.local_tag),
        remote_tag: copy_opt(&c.remote_tag),
        remote_contact: copy_opt(&c.remote_contact),
        remote_rtp_addr: copy_opt(&c.remote_rtp_addr),
        local_rtp_port: c.local_rtp_port,
    }
}

fn find_call(calls: &Vec<Call>, id: &str) -> (k: usize)
    ensures
        k == call_index(calls_view(calls@), id@, 0),
        k <= calls@.len(),
{
    let ghost cv = calls_view(calls@);
    let mut k: usize = 0;
    while k < calls.len()
        invariant
            cv == calls_view(calls@),
            k <= calls@.len(),
            call_index(cv, id@, k as int) == call_index(cv, id@, 0),
        decreases calls@.len() - k,
    {
        let a = chars_of(calls[k].id.as_str());
        let b = chars_of(id);
        if vec_chars_eq(&a, &b) {
            return k;
        }
        k = k + 1;
    }
    k
}

fn vec_chars_eq(a: &Vec<char>, b: &Vec<char>) -> (r: bool)
    ensures
        r == (a@ == b@),
{
    if a.len() != b.len() {
        return false;
    }
    let mut k: usize = 0;
    while k < a.len()
        invariant
            a@.len() == b@.len(),
            k <= a@.len(),
            forall|m: int| 0 <= m < k ==> a@[m] == b@[m],
        decreases a@.len() - k,
    {
        if a[k] != b[k] {
            return false;
        }
        k = k + 1;
    }
    assert(a@ == b@);
    true
}

fn sdp_offer(user: &str, local_addr: &str) -> (s: SdpSession)
    ensures
        s@ == offer_session(user@, local_addr@),
{
    let v = chars_of(local_addr);
    let k = find_char_exec(&v, ':', 0, v.len());
    let host = string_of_range(&v, 0, k);
    let mut sdp = SdpSession::new(user, "CallSession", host.as_str());
    let mut formats: Vec<String> = Vec::new();
    formats.push(copy_string_from("0"));
    formats.push(copy_string_from("8"));
    let mut attributes: Vec<String> = Vec::new();
    attributes.push(copy_string_from("rtpmap:0 PCMU/8000"));
    attributes.push(copy_string_from("rtpmap:8 PCMA/8000"));
    let m = SdpMediaDescription {
        media_type: copy_string_from("audio"),
        port: 4000,
        transport: copy_string_from("RTP/AVP"),
        formats,
        attributes,
    };
    assert(crate::media::sdp::strings_view(m.formats@) == seq!["0"@, "8"@]);
    assert(crate::media::sdp::strings_view(m.attributes@) == seq![
        "rtpmap:0 PCMU/8000"@,
        "rtpmap:8 PCMA/8000"@,
    ]);
    assert(m@ == audio_offer());
    sdp.add_media(m);
    assert(seq![audio_offer()] == Seq::<SdpMediaView>::empty().push(audio_offer()));
    sdp
}

fn angle_string(s: &str, suffix: &str) -> (r: String)
    ensures
        r@ == "<"@ + s@ + suffix@,
{
    let mut r = String::new();
    push_str(&mut r, "<");
    push_str(&mut r, s);
    push_str(&mut r, suffix);
    assert(Seq::<char>::empty() + "<"@ == "<"@);
    r
}

impl UserAgentState {
    /// Starts a call to `remote_uri`: the next CSeq, and the INVITE request to
    /// send, made from the account, the transport protocol, the local address
    /// and fresh Call-ID, tag and branch tokens, with the audio offer as body.
    pub fn start_invite(
        &mut self,
        remote_uri: &str,
        proto: &str,
        local_addr: &str,
        call_id: &str,
        local_tag: &str,
        branch_id: &str,
    ) -> (s: InviteSession)
        requires
            old(self).cseq < u32::MAX,
        ensures
            final(self)@ == (UaView { cseq: (old(self).cseq + 1) as u32, ..old(self)@ }),
            s@ == (InviteView {
                request: invite_request(
                    old(self)@.account,
                    remote_uri@,
                    proto@,
                    local_addr@,
                    branch_id@,
                    local_tag@,
                    call_id@,
                    (old(self).cseq + 1) as u32,
                ),
                call_id: call_id@,
                remote_uri: remote_uri@,
                local_tag: local_tag@,
                retry_count: 0,
                proto: proto@,
                local_addr: local_addr@,
            }),
    {
        self.cseq = self.cseq + 1;
        let sdp = sdp_offer(self.account.username.as_str(), local_addr);
        let sdp_text = sdp.to_string();
        let via = via_string(proto, local_addr, branch_id);
        let from = tagged_aor_string(self.account.username.as_str(), self.account.domain.as_str(), local_tag);
        let to = angle_string(remote_uri, ">");
        let cseq = cseq_string(self.cseq, &Method::Invite);
        let contact = aor_string(self.account.username.as_str(), local_addr);
        let mut req = SipRequest::new(Method::Invite, remote_uri)
            .with_header("Via", via.as_str())
            .with_header("From", from.as_str())
            .with_header("To", to.as_str())
            .with_header("Call-ID", call_id)
            .with_header("CSeq", cseq.as_str())
            .with_header("Contact", contact.as_str())
            .with_header("Content-Type", "application/sdp")
            .with_header("User-Agent", "Softphone/0.1.0")
            .with_header("Max-Forwards", "70");
        req.body = vstd::slice::slice_to_vec(sdp_text.as_str().as_bytes());
        InviteSession {
            request: req,
            call_id: copy_string_from(call_id),
            remote_uri: copy_string_from(remote_uri),
            local_tag: copy_string_from(local_tag),
            retry_count: 0,
            proto: copy_string_from(proto),
            local_addr: copy_string_from(local_addr),
        }
    }

    /// Records the call once its INVITE was sent.
    pub fn add_call(&mut self, s: &InviteSession)
        ensures
            final(self)@ == (UaView { calls: old(self)@.calls.push(new_call(s@)), ..old(self)@ }),
    {
        let c = Call {
            id: copy_string(&s.call_id),
            state: CallState::Calling,
            remote_uri: copy_string(&s.remote_uri),
            local_tag: copy_string(&s.local_tag),
            remote_tag: None,
            remote_contact: None,
            remote_rtp_addr: None,
            local_rtp_port: Some(4000),
        };
        self.active_calls.push(c);
        assert(calls_view(self.active_calls@) == calls_view(old(self).active_calls@).push(new_call(s@)));
    }

    /// Handles the next event of a call being placed (see `invite_step`).
    /// `branch_id` and `cnonce` are fresh random tokens for a request sent now.
    pub fn on_invite_event(
        &mut self,
        session: &mut InviteSession,
        message: Option<SipMessage>,
        branch_id: &str,
        cnonce: &str,
    ) -> (a: UaAction)
        requires
            answers_challenge(old(self)@, old(session).retry_count, opt_message_view(message)) ==> old(self).cseq < u32::MAX,
        ensures
            (final(self)@, final(session)@, a@) == invite_step(
                old(self)@,
                old(session)@,
                opt_message_view(message),
                branch_id@,
                cnonce@,
            ),
    {
        let res = match message {
            None => {
                return UaAction::Done;
            },
            Some(SipMessage::Request(_)) => {
                return UaAction::Wait;
            },
            Some(SipMessage::Response(res)) => res,
        };
        let code = res.status_code;
        let tag = match res.get_header("To") {
            Some(h) => extract_tag(h.as_str()),
            None => None,
        };
        let contact = match res.get_header("Contact") {
            Some(h) => Some(strip_angle_brackets(h.as_str())),
            None => None,
        };
        let k = find_call(&self.active_calls, session.call_id.as_str());
        let found = k < self.active_calls.len();
        if found {
            let mut c = copy_call(&self.active_calls[k]);
            match tag {
                Some(t) => {
                    c.remote_tag = Some(t);
                },
                None => {},
            }
            match contact {
                Some(t) => {
                    c.remote_contact = Some(t);
                },
                None => {},
            }
            let ghost old_calls = calls_view(self.active_calls@);
            self.active_calls.set(k, c);
            assert(calls_view(self.active_calls@) == old_calls.update(k as int, c@));
        }
        if code == 100 || code == 180 || code == 183 {
            if found && (code == 180 || code == 183) {
                let mut c = copy_call(&self.active_calls[k]);
                c.state = CallState::Ringing;
                let ghost old_calls = calls_view(self.active_calls@);
                self.active_calls.set(k, c);
                assert(calls_view(self.active_calls@) == old_calls.update(k as int, c@));
            }
            return UaAction::Wait;
        }
        if code == 200 {
            if found {
                let mut c = copy_call(&self.active_calls[k]);
                c.state = CallState::Connected;
                let body = lossy_string(res.body.as_slice());
                let rtp = rtp_address_of(body.as_str());
                let ack_uri = match &c.remote_contact {
                    Some(x) => copy_string(x),
                    None => copy_string(&c.remote_uri),
                };
                let via = via_string(session.proto.as_str(), session.local_addr.as_str(), branch_id);
                let from = tagged_aor_string(
                    self.account.username.as_str(),
                    self.account.domain.as_str(),
                    c.local_tag.as_str(),
                );
                let mut to = angle_string(c.remote_uri.as_str(), ">;tag=");
                match &c.remote_tag {
                    Some(t) => push_str(&mut to, t.as_str()),
                    None => {},
                }
                assert(to@ == "<"@ + c@.remote_uri + ">;tag="@ + or_empty(c@.remote_tag));
                let cseq = cseq_string(self.cseq, &Method::Ack);
                let ack = SipRequest::new(Method::Ack, ack_uri.as_str())
                    .with_header("Via", via.as_str())
                    .with_header("From", from.as_str())
                    .with_header("To", to.as_str())
                    .with_header("Call-ID", c.id.as_str())
                    .with_header("CSeq", cseq.as_str())
                    .with_header("Max-Forwards", "70");
                let ghost old_calls = calls_view(self.active_calls@);
                let ghost cv = c@;
                self.active_calls.set(k, c);
                assert(calls_view(self.active_calls@) == old_calls.update(k as int, cv));
                return UaAction::Answered(ack.to_string(), rtp);
            }
            return UaAction::Done;
        }
        if (code == 401 || code == 407) && session.retry_count < 3 {
            session.retry_count = session.retry_count + 1;
            let h = if code == 401 {
                res.get_header("WWW-Authenticate")
            } else {
                res.get_header("Proxy-Authenticate")
            };
            match h {
                Some(h) => {
                    match &self.account.password {
                        None => {
                            return UaAction::Abort(copy_string_from("Password required"));
                        },
                        Some(p) => {
                            let n = self.cseq + 1;
                            let answer = authorization_string(
                                self.account.username.as_str(),
                                p.as_str(),
                                h.as_str(),
                                session.remote_uri.as_str(),
                                &Method::Invite,
                                cnonce,
                            );
                            self.cseq = n;
                            authorize(
                                &mut session.request,
                                code,
                                answer.as_str(),
                                session.proto.as_str(),
                                session.local_addr.as_str(),
                                branch_id,
                                n,
                                &Method::Invite,
                            );
                            return UaAction::Send(session.request.to_string());
                        },
                    }
                },
                None => {},
            }
        }
        if code >= 400 {
            if found {
                let ghost before = calls_view(self.active_calls@);
                self.active_calls.remove(k);
                assert(calls_view(self.active_calls@) == before.remove(k as int));
            }
            return UaAction::Done;
        }
        UaAction::Wait
    }
}


/// The BYE that ends a call.
pub open spec fn bye_request(
    a: AccountView,
    c: CallView,
    proto: Seq<char>,
    local_addr: Seq<char>,
    branch_id: Seq<char>,
    cseq: u32,
) -> SipRequestView {
    let h = header_set(seq![], "Via"@, via_text(proto, local_addr, branch_id));
    let h = header_set(h, "From"@, tagged_aor_text(a.username, a.domain, c.local_tag));
    let h = header_set(h, "To"@, "<"@ + c.remote_uri + ">;tag="@ + or_empty(c.remote_tag));
    let h = header_set(h, "Call-ID"@, c.id);
    let h = header_set(h, "CSeq"@, cseq_text(cseq, MethodView::Bye));
    let h = header_set(h, "User-Agent"@, "Softphone/0.1.0"@);
    let h = header_set(h, "Max-Forwards"@, "70"@);
    SipRequestView {
        method: MethodView::Bye,
        uri: match c.remote_contact {
            Some(x) => x,
            None => c.remote_uri,
        },
        version: sip_version(),
        headers: h,
        body: seq![],
    }
}

impl UserAgentState {
    /// Starts ending the call `call_id`: when there is such a call, the next
    /// CSeq and the BYE to send; otherwise nothing changes.
    pub fn start_hangup(
        &mut self,
        call_id: &str,
        proto: &str,
        local_addr: &str,
        branch_id: &str,
    ) -> (r: Option<SipRequest>)
        requires
            call_index(old(self)@.calls, call_id@, 0) < old(self)@.calls.len() ==> old(self).cseq < u32::MAX,
        ensures
            ({
                let k = call_index(old(self)@.calls, call_id@, 0);
                if k < old(self)@.calls.len() {
                    &&& final(self)@ == (UaView { cseq: (old(self).cseq + 1) as u32, ..old(self)@ })
                    &&& r matches Some(q) && q@ == bye_request(
                        old(self)@.account,
                        old(self)@.calls[k],
                        proto@,
                        local_addr@,
                        branch_id@,
                        (old(self).cseq + 1) as u32,
                    )
                } else {
                    &&& final(self)@ == old(self)@
                    &&& r is None
                }
            }),
    {
        let k = find_call(&self.active_calls, call_id);
        if k >= self.active_calls.len() {
            return None;
        }
        self.cseq = self.cseq + 1;
        let c = &self.active_calls[k];
        let uri = match &c.remote_contact {
            Some(x) => copy_string(x),
            None => copy_string(&c.remote_uri),
        };
        let via = via_string(proto, local_addr, branch_id);
        let from = tagged_aor_string(
            self.account.username.as_str(),
            self.account.domain.as_str(),
            c.local_tag.as_str(),
        );
        let mut to = angle_string(c.remote_uri.as_str(), ">;tag=");
        match &c.remote_tag {
            Some(t) => push_str(&mut to, t.as_str()),
            None => {},
        }
        assert(to@ == "<"@ + c@.remote_uri + ">;tag="@ + or_empty(c@.remote_tag));
        let cseq = cseq_string(self.cseq, &Method::Bye);
        let req = SipRequest::new(Method::Bye, uri.as_str())
            .with_header("Via", via.as_str())
            .with_header("From", from.as_str())
            .with_header("To", to.as_str())
            .with_header("Call-ID", c.id.as_str())
            .with_header("CSeq", cseq.as_str())
            .with_header("User-Agent", "Softphone/0.1.0")
            .with_header("Max-Forwards", "70");
        Some(req)
    }

    /// Forgets the call `call_id` (the first with that id), if there is one.
    pub fn remove_call(&mut self, call_id: &str)
        ensures
            ({
                let k = call_index(old(self)@.calls, call_id@, 0);
                final(self)@ == if k < old(self)@.calls.len() {
                    UaView { calls: old(self)@.calls.remove(k), ..old(self)@ }
                } else {
                    old(self)@
                }
            }),
    {
        let k = find_call(&self.active_calls, call_id);
        if k < self.active_calls.len() {
            let ghost before = calls_view(self.active_calls@);
            self.active_calls.remove(k);
            assert(calls_view(self.active_calls@) == before.remove(k as int));
        }
    }

    /// Records the peer's RTP address of the call `call_id`, if there is one.
    pub fn set_remote_rtp(&mut self, call_id: &str, addr: &str)
        ensures
            ({
                let k = call_index(old(self)@.calls, call_id@, 0);
                final(self)@ == if k < old(self)@.calls.len() {
                    UaView {
                        calls: old(self)@.calls.update(
                            k,
                            CallView { remote_rtp_addr: Some(addr@), ..old(self)@.calls[k] },
                        ),
                        ..old(self)@
                    }
                } else {
                    old(self)@
                }
            }),
    {
        let k = find_call(&self.active_calls, call_id);
        if k < self.active_calls.len() {
            let mut c = copy_call(&self.active_calls[k]);
            c.remote_rtp_addr = Some(copy_string_from(addr));
            let ghost before = calls_view(self.active_calls@);
            self.active_calls.set(k, c);
            assert(calls_view(self.active_calls@) == before.update(k as int, c@));
        }
    }
}

} // verus!
