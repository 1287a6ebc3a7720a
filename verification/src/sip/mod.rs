//! SIP messages: methods, requests, responses, their header lists, and their
//! text form (RFC 3261 start line, `Name: value` header lines, blank line, body).
use vstd::prelude::*;
use vstd::slice::slice_to_vec;
use vstd::utf8::{decode_utf8, encode_utf8, valid_utf8};
use crate::text::{
    strings_of_ranges,    lossy_string, utf8_lossy, utf8_of_range,
    chars_of, eq_ignore_case, eq_ignore_case_exec, find_char, find_char_exec, find_crlf,
    find_crlf_exec, has_prefix, has_prefix_exec, join, lemma_find_char, lemma_find_crlf,
    parse_uint, parse_uint_exec, push_char, push_decimal, push_range, push_str, range_texts,
    string_of_range, to_uppercase, trimmed, trimmed_string, uppercase, ws_token_ranges,
    ws_tokens, decimal, copy_string,
};



pub mod auth;
pub mod header_updates;
pub mod roundtrip;
pub mod ua;
pub mod ua_facts;

verus! {

/// A SIP request method.
#[derive(Debug, Clone, PartialEq, Eq)]
pub enum Method {
    Invite,
    Ack,
    Bye,
    Cancel,
    Options,
    Register,
    Notify,
    Subscribe,
    Message,
    Refer,
    Update,
    Info,
    Prack,
    Publish,
    Unknown(String),
}

/// The mathematical value of a `Method`.
pub enum MethodView {
    Invite,
    Ack,
    Bye,
    Cancel,
    Options,
    Register,
    Notify,
    Subscribe,
    Message,
    Refer,
    Update,
    Info,
    Prack,
    Publish,
    Unknown(Seq<char>),
}

impl View for Method {
    type V = MethodView;

    open spec fn view(&self) -> MethodView {
        match self {
            Method::Invite => MethodView::Invite,
            Method::Ack => MethodView::Ack,
            Method::Bye => MethodView::Bye,
            Method::Cancel => MethodView::Cancel,
            Method::Options => MethodView::Options,
            Method::Register => MethodView::Register,
            Method::Notify => MethodView::Notify,
            Method::Subscribe => MethodView::Subscribe,
            Method::Message => MethodView::Message,
            Method::Refer => MethodView::Refer,
            Method::Update => MethodView::Update,
            Method::Info => MethodView::Info,
            Method::Prack => MethodView::Prack,
            Method::Publish => MethodView::Publish,
            Method::Unknown(s) => MethodView::Unknown(s@),
        }
    }
}

/// The text of a method as it appears in a request line.
pub open spec fn method_name(m: MethodView) -> Seq<char> {
    match m {
        MethodView::Invite => seq!['I', 'N', 'V', 'I', 'T', 'E'],
        MethodView::Ack => seq!['A', 'C', 'K'],
        MethodView::Bye => seq!['B', 'Y', 'E'],
        MethodView::Cancel => seq!['C', 'A', 'N', 'C', 'E', 'L'],
        MethodView::Options => seq!['O', 'P', 'T', 'I', 'O', 'N', 'S'],
        MethodView::Register => seq!['R', 'E', 'G', 'I', 'S', 'T', 'E', 'R'],
        MethodView::Notify => seq!['N', 'O', 'T', 'I', 'F', 'Y'],
        MethodView::Subscribe => seq!['S', 'U', 'B', 'S', 'C', 'R', 'I', 'B', 'E'],
        MethodView::Message => seq!['M', 'E', 'S', 'S', 'A', 'G', 'E'],
        MethodView::Refer => seq!['R', 'E', 'F', 'E', 'R'],
        MethodView::Update => seq!['U', 'P', 'D', 'A', 'T', 'E'],
        MethodView::Info => seq!['I', 'N', 'F', 'O'],
        MethodView::Prack => seq!['P', 'R', 'A', 'C', 'K'],
        MethodView::Publish => seq!['P', 'U', 'B', 'L', 'I', 'S', 'H'],
        MethodView::Unknown(s) => s,
    }
}

/// The known method whose upper-case name is `u`, if any.
pub open spec fn known_method(u: Seq<char>) -> Option<MethodView> {
    if u == method_name(MethodView::Invite) {
        Some(MethodView::Invite)
    } else if u == method_name(MethodView::Ack) {
        Some(MethodView::Ack)
    } else if u == method_name(MethodView::Bye) {
        Some(MethodView::Bye)
    } else if u == method_name(MethodView::Cancel) {
        Some(MethodView::Cancel)
    } else if u == method_name(MethodView::Options) {
        Some(MethodView::Options)
    } else if u == method_name(MethodView::Register) {
        Some(MethodView::Register)
    } else if u == method_name(MethodView::Notify) {
        Some(MethodView::Notify)
    } else if u == method_name(MethodView::Subscribe) {
        Some(MethodView::Subscribe)
    } else if u == method_name(MethodView::Message) {
        Some(MethodView::Message)
    } else if u == method_name(MethodView::Refer) {
        Some(MethodView::Refer)
    } else if u == method_name(MethodView::Update) {
        Some(MethodView::Update)
    } else if u == method_name(MethodView::Info) {
        Some(MethodView::Info)
    } else if u == method_name(MethodView::Prack) {
        Some(MethodView::Prack)
    } else if u == method_name(MethodView::Publish) {
        Some(MethodView::Publish)
    } else {
        None
    }
}

/// The method a request-line token names: matched case-insensitively (after
/// Unicode upper-casing) against the known names, else kept as it is.
pub open spec fn method_from_text(t: Seq<char>) -> MethodView {
    match known_method(uppercase(t)) {
        Some(m) => m,
        None => MethodView::Unknown(t),
    }
}

fn text_is(v: &Vec<char>, lit: &str) -> (r: bool)
    ensures
        r == (v@ == lit@),
{
    let w = chars_of(lit);
    if v.len() != w.len() {
        return false;
    }
    let mut k: usize = 0;
    while k < v.len()
        invariant
            w@ == lit@,
            v@.len() == w@.len(),
            k <= v@.len(),
            forall|m: int| 0 <= m < k ==> v@[m] == w@[m],
        decreases v@.len() - k,
    {
        if v[k] != w[k] {
            return false;
        }
        k = k + 1;
    }
    assert(v@ == w@);
    true
}

impl Method {
    /// The method's name as it appears in a request line.
    pub fn to_string(&self) -> (s: String)
        ensures
            s@ == method_name(self@),
    {
        match self {
            Method::Invite => {
                proof { reveal_strlit("INVITE"); }
                String::from_str("INVITE")
            },
            Method::Ack => {
                proof { reveal_strlit("ACK"); }
                String::from_str("ACK")
            },
            Method::Bye => {
                proof { reveal_strlit("BYE"); }
                String::from_str("BYE")
            },
            Method::Cancel => {
                proof { reveal_strlit("CANCEL"); }
                String::from_str("CANCEL")
            },
            Method::Options => {
                proof { reveal_strlit("OPTIONS"); }
                String::from_str("OPTIONS")
            },
            Method::Register => {
                proof { reveal_strlit("REGISTER"); }
                String::from_str("REGISTER")
            },
            Method::Notify => {
                proof { reveal_strlit("NOTIFY"); }
                String::from_str("NOTIFY")
            },
            Method::Subscribe => {
                proof { reveal_strlit("SUBSCRIBE"); }
                String::from_str("SUBSCRIBE")
            },
            Method::Message => {
                proof { reveal_strlit("MESSAGE"); }
                String::from_str("MESSAGE")
            },
            Method::Refer => {
                proof { reveal_strlit("REFER"); }
                String::from_str("REFER")
            },
            Method::Update => {
                proof { reveal_strlit("UPDATE"); }
                String::from_str("UPDATE")
            },
            Method::Info => {
                proof { reveal_strlit("INFO"); }
                String::from_str("INFO")
            },
            Method::Prack => {
                proof { reveal_strlit("PRACK"); }
                String::from_str("PRACK")
            },
            Method::Publish => {
                proof { reveal_strlit("PUBLISH"); }
                String::from_str("PUBLISH")
            },
            Method::Unknown(s) => copy_string(s),
        }
    }

    /// The method that a request-line token names.
    pub fn from(s: &str) -> (m: Method)
        ensures
            m@ == method_from_text(s@),
    {
        let up = to_uppercase(s);
        let u = chars_of(up.as_str());
        proof {
            reveal_strlit("INVITE");
            reveal_strlit("ACK");
            reveal_strlit("BYE");
            reveal_strlit("CANCEL");
            reveal_strlit("OPTIONS");
            reveal_strlit("REGISTER");
            reveal_strlit("NOTIFY");
            reveal_strlit("SUBSCRIBE");
            reveal_strlit("MESSAGE");
            reveal_strlit("REFER");
            reveal_strlit("UPDATE");
            reveal_strlit("INFO");
            reveal_strlit("PRACK");
            reveal_strlit("PUBLISH");
            assert("INVITE"@ == method_name(MethodView::Invite));
            assert("ACK"@ == method_name(MethodView::Ack));
            assert("BYE"@ == method_name(MethodView::Bye));
            assert("CANCEL"@ == method_name(MethodView::Cancel));
            assert("OPTIONS"@ == method_name(MethodView::Options));
            assert("REGISTER"@ == method_name(MethodView::Register));
            assert("NOTIFY"@ == method_name(MethodView::Notify));
            assert("SUBSCRIBE"@ == method_name(MethodView::Subscribe));
            assert("MESSAGE"@ == method_name(MethodView::Message));
            assert("REFER"@ == method_name(MethodView::Refer));
            assert("UPDATE"@ == method_name(MethodView::Update));
            assert("INFO"@ == method_name(MethodView::Info));
            assert("PRACK"@ == method_name(MethodView::Prack));
            assert("PUBLISH"@ == method_name(MethodView::Publish));
        }
        if text_is(&u, "INVITE") {
            Method::Invite
        } else if text_is(&u, "ACK") {
            Method::Ack
        } else if text_is(&u, "BYE") {
            Method::Bye
        } else if text_is(&u, "CANCEL") {
            Method::Cancel
        } else if text_is(&u, "OPTIONS") {
            Method::Options
        } else if text_is(&u, "REGISTER") {
            Method::Register
        } else if text_is(&u, "NOTIFY") {
            Method::Notify
        } else if text_is(&u, "SUBSCRIBE") {
            Method::Subscribe
        } else if text_is(&u, "MESSAGE") {
            Method::Message
        } else if text_is(&u, "REFER") {
            Method::Refer
        } else if text_is(&u, "UPDATE") {
            Method::Update
        } else if text_is(&u, "INFO") {
            Method::Info
        } else if text_is(&u, "PRACK") {
            Method::Prack
        } else if text_is(&u, "PUBLISH") {
            Method::Publish
        } else {
            let mut t = String::new();
            push_str(&mut t, s);
            assert(Seq::<char>::empty() + s@ == s@);
            Method::Unknown(t)
        }
    }

    /// A method with the same value.
    pub fn duplicate(&self) -> (m: Method)
        ensures
            m@ == self@,
    {
        match self {
            Method::Invite => Method::Invite,
            Method::Ack => Method::Ack,
            Method::Bye => Method::Bye,
            Method::Cancel => Method::Cancel,
            Method::Options => Method::Options,
            Method::Register => Method::Register,
            Method::Notify => Method::Notify,
            Method::Subscribe => Method::Subscribe,
            Method::Message => Method::Message,
            Method::Refer => Method::Refer,
            Method::Update => Method::Update,
            Method::Info => Method::Info,
            Method::Prack => Method::Prack,
            Method::Publish => Method::Publish,
            Method::Unknown(s) => Method::Unknown(copy_string(s)),
        }
    }
}


/// The mathematical value of a header list: (name, value) pairs in order.
pub open spec fn headers_view(h: Seq<(String, String)>) -> Seq<(Seq<char>, Seq<char>)> {
    h.map_values(|p: (String, String)| (p.0@, p.1@))
}

/// First index `k >= i` whose header name equals `name` up to ASCII case,
/// or `hs.len()`.
pub open spec fn header_index(hs: Seq<(Seq<char>, Seq<char>)>, name: Seq<char>, i: int) -> int
    decreases hs.len() - i,
{
    if i >= hs.len() {
        hs.len() as int
    } else if eq_ignore_case(hs[i].0, name) {
        i
    } else {
        header_index(hs, name, i + 1)
    }
}

pub proof fn lemma_header_index(hs: Seq<(Seq<char>, Seq<char>)>, name: Seq<char>, i: int)
    requires
        0 <= i <= hs.len(),
    ensures
        i <= header_index(hs, name, i) <= hs.len(),
        header_index(hs, name, i) < hs.len() ==> eq_ignore_case(
            hs[header_index(hs, name, i)].0,
            name,
        ),
        forall|k: int| i <= k < header_index(hs, name, i) ==> !eq_ignore_case(#[trigger] hs[k].0, name),
    decreases hs.len() - i,
{
    if i < hs.len() && !eq_ignore_case(hs[i].0, name) {
        lemma_header_index(hs, name, i + 1);
    }
}

/// The value of the first header called `name` (up to ASCII case), if any.
pub open spec fn header_value(hs: Seq<(Seq<char>, Seq<char>)>, name: Seq<char>) -> Option<Seq<char>> {
    let k = header_index(hs, name, 0);
    if k < hs.len() {
        Some(hs[k].1)
    } else {
        None
    }
}

/// The values of all headers called `name` (up to ASCII case), in order.
pub open spec fn header_values(hs: Seq<(Seq<char>, Seq<char>)>, name: Seq<char>) -> Seq<Seq<char>>
    decreases hs.len(),
{
    if hs.len() == 0 {
        seq![]
    } else {
        let r = header_values(hs.drop_last(), name);
        if eq_ignore_case(hs.last().0, name) {
            r.push(hs.last().1)
        } else {
            r
        }
    }
}

/// The header list after `set_header(name, value)`: the first header called
/// `name` gets the new value, or a new header is appended when there is none.
pub open spec fn header_set(hs: Seq<(Seq<char>, Seq<char>)>, name: Seq<char>, value: Seq<char>) -> Seq<
    (Seq<char>, Seq<char>),
> {
    let k = header_index(hs, name, 0);
    if k < hs.len() {
        hs.update(k, (hs[k].0, value))
    } else {
        hs.push((name, value))
    }
}

pub open spec fn opt_string_view(o: Option<&String>) -> Option<Seq<char>> {
    match o {
        Some(s) => Some(s@),
        None => None,
    }
}

/// What a `Content-Length` value parses to, if it is a `usize` numeral.
pub open spec fn content_length_of(v: Option<Seq<char>>) -> Option<usize> {
    match v {
        Some(t) => match parse_uint(t, usize::MAX as nat) {
            Some(n) => Some(n as usize),
            None => None,
        },
        None => None,
    }
}

pub open spec fn name_via() -> Seq<char> {
    seq!['V', 'i', 'a']
}

pub open spec fn name_from() -> Seq<char> {
    seq!['F', 'r', 'o', 'm']
}

pub open spec fn name_to() -> Seq<char> {
    seq!['T', 'o']
}

pub open spec fn name_call_id() -> Seq<char> {
    seq!['C', 'a', 'l', 'l', '-', 'I', 'D']
}

pub open spec fn name_cseq() -> Seq<char> {
    seq!['C', 'S', 'e', 'q']
}

pub open spec fn name_contact() -> Seq<char> {
    seq!['C', 'o', 'n', 't', 'a', 'c', 't']
}

pub open spec fn name_p_access_network_info() -> Seq<char> {
    seq![
        'P', '-', 'A', 'c', 'c', 'e', 's', 's', '-', 'N', 'e', 't', 'w', 'o', 'r', 'k', '-', 'I',
        'n', 'f', 'o',
    ]
}

pub open spec fn name_content_length() -> Seq<char> {
    seq!['C', 'o', 'n', 't', 'e', 'n', 't', '-', 'L', 'e', 'n', 'g', 't', 'h']
}

/// Index of the first header called `name` (up to ASCII case), or the length.
pub fn find_header(hs: &Vec<(String, String)>, name: &str) -> (k: usize)
    ensures
        k == header_index(headers_view(hs@), name@, 0),
        k <= hs@.len(),
{
    let nv = chars_of(name);
    let ghost hv = headers_view(hs@);
    proof {
        lemma_header_index(hv, name@, 0);
    }
    let mut k: usize = 0;
    while k < hs.len()
        invariant
            nv@ == name@,
            hv == headers_view(hs@),
            k <= hs@.len(),
            header_index(hv, name@, k as int) == header_index(hv, name@, 0),
        decreases hs@.len() - k,
    {
        let kv = chars_of(hs[k].0.as_str());
        assert(hv[k as int].0 == kv@);
        if eq_ignore_case_exec(&kv, &nv) {
            return k;
        }
        k = k + 1;
    }
    k
}

/// Access to the header list of a SIP message.
pub trait SipHeaderAccess {
    /// The header list, as (name, value) pairs in order.
    spec fn header_list(&self) -> Seq<(Seq<char>, Seq<char>)>;

    /// `self` and `other` agree on everything but their headers.
    spec fn same_but_headers(&self, other: &Self) -> bool;

    fn get_headers(&self) -> (r: &Vec<(String, String)>)
        ensures
            headers_view(r@) == self.header_list(),
    ;

    fn get_headers_mut(&mut self) -> (r: &mut Vec<(String, String)>)
        ensures
            headers_view(r@) == old(self).header_list(),
            headers_view(final(r)@) == final(self).header_list(),
            old(self).same_but_headers(final(self)),
    ;

    /// The value of the first header called `name`, compared up to ASCII case.
    fn get_header(&self, name: &str) -> (r: Option<&String>)
        ensures
            opt_string_view(r) == header_value(self.header_list(), name@),
    {
        let hs = self.get_headers();
        let k = find_header(hs, name);
        if k < hs.len() {
            Some(&hs[k].1)
        } else {
            None
        }
    }

    /// The values of all headers called `name`, compared up to ASCII case, in order.
    fn get_all_headers(&self, name: &str) -> (r: Vec<&String>)
        ensures
            r@.map_values(|s: &String| s@) == header_values(self.header_list(), name@),
    {
        let hs = self.get_headers();
        let nv = chars_of(name);
        let ghost hv = headers_view(hs@);
        let mut r: Vec<&String> = Vec::new();
        let mut k: usize = 0;
        while k < hs.len()
            invariant
                nv@ == name@,
                hv == headers_view(hs@),
                hv == self.header_list(),
                k <= hs@.len(),
                r@.map_values(|s: &String| s@) == header_values(hv.subrange(0, k as int), name@),
            decreases hs@.len() - k,
        {
            let kv = chars_of(hs[k].0.as_str());
            let ghost pre = hv.subrange(0, k as int);
            let ghost next = hv.subrange(0, k + 1);
            assert(next.drop_last() == pre);
            assert(next.last() == hv[k as int]);
            assert(hv[k as int].0 == kv@);
            let ghost old_r = r@;
            if eq_ignore_case_exec(&kv, &nv) {
                r.push(&hs[k].1);
                assert(r@.map_values(|s: &String| s@) == old_r.map_values(|s: &String| s@).push(
                    hs@[k as int].1@,
                ));
            }
            k = k + 1;
        }
        assert(hv.subrange(0, hs@.len() as int) == hv);
        r
    }

    /// Gives the first header called `name` the value `value`, or appends the
    /// header when there is none.
    fn set_header(&mut self, name: &str, value: &str)
        ensures
            final(self).header_list() == header_set(old(self).header_list(), name@, value@),
            old(self).same_but_headers(final(self)),
    {
        let k = find_header(self.get_headers(), name);
        let hs = self.get_headers_mut();
        let ghost h0 = hs@;
        if k < hs.len() {
            let n = copy_string(&hs[k].0);
            let mut v = String::new();
            push_str(&mut v, value);
            assert(Seq::<char>::empty() + value@ == value@);
            hs.set(k, (n, v));
            assert(headers_view(hs@) == headers_view(h0).update(
                k as int,
                (headers_view(h0)[k as int].0, value@),
            ));
        } else {
            let mut n = String::new();
            push_str(&mut n, name);
            let mut v = String::new();
            push_str(&mut v, value);
            assert(Seq::<char>::empty() + value@ == value@);
            assert(Seq::<char>::empty() + name@ == name@);
            hs.push((n, v));
            assert(headers_view(hs@) == headers_view(h0).push((name@, value@)));
        }
    }

    /// Appends a header, keeping any others of the same name.
    fn add_header(&mut self, name: &str, value: &str)
        ensures
            final(self).header_list() == old(self).header_list().push((name@, value@)),
            old(self).same_but_headers(final(self)),
    {
        let hs = self.get_headers_mut();
        let ghost h0 = hs@;
        let mut n = String::new();
        push_str(&mut n, name);
        let mut v = String::new();
        push_str(&mut v, value);
        assert(Seq::<char>::empty() + value@ == value@);
        assert(Seq::<char>::empty() + name@ == name@);
        hs.push((n, v));
        assert(headers_view(hs@) == headers_view(h0).push((name@, value@)));
    }

    fn via(&self) -> (r: Option<&String>)
        ensures
            opt_string_view(r) == header_value(self.header_list(), name_via()),
    {
        proof { reveal_strlit("Via"); }
        assert("Via"@ == name_via());
        self.get_header("Via")
    }

    fn from(&self) -> (r: Option<&String>)
        ensures
            opt_string_view(r) == header_value(self.header_list(), name_from()),
    {
        proof { reveal_strlit("From"); }
        assert("From"@ == name_from());
        self.get_header("From")
    }

    fn to(&self) -> (r: Option<&String>)
        ensures
            opt_string_view(r) == header_value(self.header_list(), name_to()),
    {
        proof { reveal_strlit("To"); }
        assert("To"@ == name_to());
        self.get_header("To")
    }

    fn call_id(&self) -> (r: Option<&String>)
        ensures
            opt_string_view(r) == header_value(self.header_list(), name_call_id()),
    {
        proof { reveal_strlit("Call-ID"); }
        assert("Call-ID"@ == name_call_id());
        self.get_header("Call-ID")
    }

    fn cseq(&self) -> (r: Option<&String>)
        ensures
            opt_string_view(r) == header_value(self.header_list(), name_cseq()),
    {
        proof { reveal_strlit("CSeq"); }
        assert("CSeq"@ == name_cseq());
        self.get_header("CSeq")
    }

    fn contact(&self) -> (r: Option<&String>)
        ensures
            opt_string_view(r) == header_value(self.header_list(), name_contact()),
    {
        proof { reveal_strlit("Contact"); }
        assert("Contact"@ == name_contact());
        self.get_header("Contact")
    }

    fn p_access_network_info(&self) -> (r: Option<&String>)
        ensures
            opt_string_view(r) == header_value(self.header_list(), name_p_access_network_info()),
    {
        proof { reveal_strlit("P-Access-Network-Info"); }
        assert("P-Access-Network-Info"@ == name_p_access_network_info());
        self.get_header("P-Access-Network-Info")
    }

    /// The `Content-Length` header's value, when it is a `usize` numeral.
    fn content_length(&self) -> (r: Option<usize>)
        ensures
            r == content_length_of(header_value(self.header_list(), name_content_length())),
    {
        proof { reveal_strlit("Content-Length"); }
        assert("Content-Length"@ == name_content_length());
        match self.get_header("Content-Length") {
            Some(h) => {
                let v = chars_of(h.as_str());
                assert(v@.subrange(0, v@.len() as int) == v@);
                match parse_uint_exec(&v, 0, v.len(), usize::MAX as u64) {
                    Some(n) => Some(n as usize),
                    None => None,
                }
            },
            None => None,
        }
    }
}


pub open spec fn sip_version() -> Seq<char> {
    seq!['S', 'I', 'P', '/', '2', '.', '0']
}

pub open spec fn crlf() -> Seq<char> {
    seq!['\r', '\n']
}

/// The header lines of a message: `Name: value` and CRLF for each header.
pub open spec fn headers_text(hs: Seq<(Seq<char>, Seq<char>)>) -> Seq<char>
    decreases hs.len(),
{
    if hs.len() == 0 {
        seq![]
    } else {
        headers_text(hs.drop_last()) + hs.last().0 + seq![':', ' '] + hs.last().1 + crlf()
    }
}

/// The header lines that follow a start line ending at `pos`, up to the first
/// empty line, with the index at which the body starts (the text's length when
/// there is no body). A line without `:` is skipped; name and value are trimmed.
pub open spec fn header_lines(s: Seq<char>, pos: int) -> (Seq<(Seq<char>, Seq<char>)>, int)
    decreases s.len() - pos,
{
    if pos < 0 || pos > s.len() {
        (seq![], s.len() as int)
    } else {
        let e = find_crlf(s, pos);
        proof {
            lemma_find_crlf(s, pos);
        }
        if e == pos {
            (seq![], if e < s.len() { e + 2 } else { s.len() as int })
        } else {
            let rest = if e < s.len() {
                header_lines(s, e + 2)
            } else {
                (seq![], s.len() as int)
            };
            let c = find_char(s, ':', pos, e);
            if c < e {
                (seq![(trimmed(s, pos, c), trimmed(s, c + 1, e))] + rest.0, rest.1)
            } else {
                rest
            }
        }
    }
}

/// Headers and body start of a message whose start line ends at `e0`.
pub open spec fn header_section(s: Seq<char>, e0: int) -> (Seq<(Seq<char>, Seq<char>)>, int) {
    if e0 >= s.len() {
        (seq![], s.len() as int)
    } else {
        header_lines(s, e0 + 2)
    }
}

fn parse_header_section(v: &Vec<char>, e0: usize) -> (r: (Vec<(String, String)>, usize))
    requires
        e0 <= v@.len(),
        e0 < v@.len() ==> e0 + 2 <= v@.len(),
    ensures
        headers_view(r.0@) == header_section(v@, e0 as int).0,
        r.1 == header_section(v@, e0 as int).1,
        r.1 <= v@.len(),
{
    let n = v.len();
    let mut hs: Vec<(String, String)> = Vec::new();
    if e0 >= n {
        return (hs, n);
    }
    let mut pos = e0 + 2;
    assert(headers_view(hs@) + header_lines(v@, pos as int).0 == header_section(v@, e0 as int).0);
    loop
        invariant
            n == v@.len(),
            pos <= n,
            e0 < n,
            headers_view(hs@) + header_lines(v@, pos as int).0 == header_section(v@, e0 as int).0,
            header_lines(v@, pos as int).1 == header_section(v@, e0 as int).1,
        decreases n - pos,
    {
        let e = find_crlf_exec(v, pos);
        proof {
            lemma_find_crlf(v@, pos as int);
        }
        if e == pos {
            let b = if e < n {
                e + 2
            } else {
                n
            };
            assert(header_lines(v@, pos as int).0 == Seq::<(Seq<char>, Seq<char>)>::empty());
            assert(headers_view(hs@) + Seq::<(Seq<char>, Seq<char>)>::empty() == headers_view(hs@));
            return (hs, b);
        }
        let c = find_char_exec(v, ':', pos, e);
        let ghost old_hs = headers_view(hs@);
        let ghost rest = if e < n {
            header_lines(v@, e + 2)
        } else {
            (Seq::<(Seq<char>, Seq<char>)>::empty(), n as int)
        };
        if c < e {
            let name = trimmed_string(v, pos, c);
            let value = trimmed_string(v, c + 1, e);
            hs.push((name, value));
            assert(headers_view(hs@) == old_hs.push((name@, value@)));
            assert(header_lines(v@, pos as int).0 == seq![(name@, value@)] + rest.0);
            assert(headers_view(hs@) + rest.0 == old_hs + (seq![(name@, value@)] + rest.0));
        } else {
            assert(header_lines(v@, pos as int).0 == rest.0);
        }
        if e >= n {
            assert(rest.0 == Seq::<(Seq<char>, Seq<char>)>::empty());
            assert(headers_view(hs@) + Seq::<(Seq<char>, Seq<char>)>::empty() == headers_view(hs@));
            return (hs, n);
        }
        pos = e + 2;
    }
}

/// The mathematical value of a `SipRequest`.
pub struct SipRequestView {
    pub method: MethodView,
    pub uri: Seq<char>,
    pub version: Seq<char>,
    pub headers: Seq<(Seq<char>, Seq<char>)>,
    pub body: Seq<u8>,
}

/// The mathematical value of a `SipResponse`.
pub struct SipResponseView {
    pub status_code: u16,
    pub reason: Seq<char>,
    pub version: Seq<char>,
    pub headers: Seq<(Seq<char>, Seq<char>)>,
    pub body: Seq<u8>,
}

/// The mathematical value of a `SipMessage`.
pub enum SipMessageView {
    Request(SipRequestView),
    Response(SipResponseView),
}

/// A SIP request.
#[derive(Debug, Clone)]
pub struct SipRequest {
    pub method: Method,
    pub uri: String,
    pub version: String,
    pub headers: Vec<(String, String)>,
    pub body: Vec<u8>,
}

/// A SIP response.
#[derive(Debug, Clone)]
pub struct SipResponse {
    pub status_code: u16,
    pub reason: String,
    pub version: String,
    pub headers: Vec<(String, String)>,
    pub body: Vec<u8>,
}

/// A SIP request or response.
#[derive(Debug, Clone)]
pub enum SipMessage {
    Request(SipRequest),
    Response(SipResponse),
}

impl View for SipRequest {
    type V = SipRequestView;

    open spec fn view(&self) -> SipRequestView {
        SipRequestView {
            method: self.method@,
            uri: self.uri@,
            version: self.version@,
            headers: headers_view(self.headers@),
            body: self.body@,
        }
    }
}

impl View for SipResponse {
    type V = SipResponseView;

    open spec fn view(&self) -> SipResponseView {
        SipResponseView {
            status_code: self.status_code,
            reason: self.reason@,
            version: self.version@,
            headers: headers_view(self.headers@),
            body: self.body@,
        }
    }
}

impl View for SipMessage {
    type V = SipMessageView;

    open spec fn view(&self) -> SipMessageView {
        match self {
            SipMessage::Request(r) => SipMessageView::Request(r@),
            SipMessage::Response(r) => SipMessageView::Response(r@),
        }
    }
}

impl SipHeaderAccess for SipRequest {
    open spec fn header_list(&self) -> Seq<(Seq<char>, Seq<char>)> {
        headers_view(self.headers@)
    }

    open spec fn same_but_headers(&self, other: &Self) -> bool {
        &&& self.method@ == other.method@
        &&& self.uri@ == other.uri@
        &&& self.version@ == other.version@
        &&& self.body@ == other.body@
    }

    fn get_headers(&self) -> (r: &Vec<(String, String)>) {
        &self.headers
    }

    fn get_headers_mut(&mut self) -> (r: &mut Vec<(String, String)>) {
        &mut self.headers
    }
}

impl SipHeaderAccess for SipResponse {
    open spec fn header_list(&self) -> Seq<(Seq<char>, Seq<char>)> {
        headers_view(self.headers@)
    }

    open spec fn same_but_headers(&self, other: &Self) -> bool {
        &&& self.status_code == other.status_code
        &&& self.reason@ == other.reason@
        &&& self.version@ == other.version@
        &&& self.body@ == other.body@
    }

    fn get_headers(&self) -> (r: &Vec<(String, String)>) {
        &self.headers
    }

    fn get_headers_mut(&mut self) -> (r: &mut Vec<(String, String)>) {
        &mut self.headers
    }
}

/// The text form of a request.
pub open spec fn request_text(r: SipRequestView) -> Seq<char> {
    method_name(r.method) + seq![' '] + r.uri + seq![' '] + r.version + crlf() + headers_text(
        r.headers,
    ) + crlf() + utf8_lossy(r.body)
}

/// The text form of a response.
pub open spec fn response_text(r: SipResponseView) -> Seq<char> {
    r.version + seq![' '] + decimal(r.status_code as nat) + seq![' '] + r.reason + crlf()
        + headers_text(r.headers) + crlf() + utf8_lossy(r.body)
}

/// What `SipRequest::parse` makes of a text: the first three whitespace-separated
/// tokens of the first line are method, URI and version (further tokens are
/// ignored), then come the header lines, and after the first empty line the body.
pub open spec fn parse_request_text(s: Seq<char>) -> Option<SipRequestView> {
    let e0 = find_crlf(s, 0);
    let t = ws_tokens(s, 0, e0);
    if t.len() < 3 {
        None
    } else {
        let hb = header_section(s, e0);
        Some(
            SipRequestView {
                method: method_from_text(t[0]),
                uri: t[1],
                version: t[2],
                headers: hb.0,
                body: encode_utf8(s.subrange(hb.1, s.len() as int)),
            },
        )
    }
}

/// What `SipResponse::parse` makes of a text: the first token of the first line is
/// the version, the second the status code (a `u16` numeral), the remaining
/// tokens joined by single spaces the reason phrase; headers and body as for a request.
pub open spec fn parse_response_text(s: Seq<char>) -> Option<SipResponseView> {
    let e0 = find_crlf(s, 0);
    let t = ws_tokens(s, 0, e0);
    if t.len() < 2 {
        None
    } else {
        match parse_uint(t[1], 65535) {
            None => None,
            Some(code) => {
                let hb = header_section(s, e0);
                Some(
                    SipResponseView {
                        status_code: code as u16,
                        reason: join(t.subrange(2, t.len() as int), seq![' ']),
                        version: t[0],
                        headers: hb.0,
                        body: encode_utf8(s.subrange(hb.1, s.len() as int)),
                    },
                )
            },
        }
    }
}

/// What `SipMessage::parse` makes of a text: a response when it starts with
/// `SIP/2.0`, otherwise a request.
pub open spec fn parse_message_text(s: Seq<char>) -> Option<SipMessageView> {
    if has_prefix(s, sip_version()) {
        match parse_response_text(s) {
            Some(r) => Some(SipMessageView::Response(r)),
            None => None,
        }
    } else {
        match parse_request_text(s) {
            Some(r) => Some(SipMessageView::Request(r)),
            None => None,
        }
    }
}

pub open spec fn message_text(m: SipMessageView) -> Seq<char> {
    match m {
        SipMessageView::Request(r) => request_text(r),
        SipMessageView::Response(r) => response_text(r),
    }
}

/// Appends the header lines of `hs` to `s`.
fn push_headers(s: &mut String, hs: &Vec<(String, String)>)
    ensures
        final(s)@ == old(s)@ + headers_text(headers_view(hs@)),
{
    let ghost hv = headers_view(hs@);
    let mut k: usize = 0;
    assert(hv.subrange(0, 0) == Seq::<(Seq<char>, Seq<char>)>::empty());
    assert(old(s)@ + Seq::<char>::empty() == old(s)@);
    while k < hs.len()
        invariant
            hv == headers_view(hs@),
            k <= hs@.len(),
            s@ == old(s)@ + headers_text(hv.subrange(0, k as int)),
        decreases hs@.len() - k,
    {
        let ghost before = s@;
        push_str(s, hs[k].0.as_str());
        push_char(s, ':');
        push_char(s, ' ');
        push_str(s, hs[k].1.as_str());
        push_char(s, '\r');
        push_char(s, '\n');
        let ghost next = hv.subrange(0, k + 1);
        assert(next.drop_last() == hv.subrange(0, k as int));
        assert(next.last() == hv[k as int]);
        assert(s@ == before + hv[k as int].0 + seq![':', ' '] + hv[k as int].1 + crlf());
        k = k + 1;
    }
    assert(hv.subrange(0, hs@.len() as int) == hv);
}

impl SipRequest {
    /// A request with the given method and URI, version `SIP/2.0`, no headers
    /// and an empty body.
    pub fn new(method: Method, uri: &str) -> (r: Self)
        ensures
            r@ == (SipRequestView {
                method: method@,
                uri: uri@,
                version: sip_version(),
                headers: seq![],
                body: seq![],
            }),
    {
        let mut u = String::new();
        push_str(&mut u, uri);
        assert(Seq::<char>::empty() + uri@ == uri@);
        proof {
            reveal_strlit("SIP/2.0");
        }
        let version = String::from_str("SIP/2.0");
        assert(version@ == sip_version());
        let r = SipRequest { method, uri: u, version, headers: Vec::new(), body: Vec::new() };
        assert(headers_view(r.headers@) == Seq::<(Seq<char>, Seq<char>)>::empty());
        r
    }

    /// The request with header `name` set to `value` (see `set_header`).
    pub fn with_header(self, name: &str, value: &str) -> (r: Self)
        ensures
            r@ == (SipRequestView { headers: header_set(self@.headers, name@, value@), ..self@ }),
    {
        let mut r = self;
        r.set_header(name, value);
        r
    }

    /// The text form of the request.
    pub fn to_string(&self) -> (s: String)
        ensures
            s@ == request_text(self@),
    {
        let mut s = self.method.to_string();
        push_char(&mut s, ' ');
        push_str(&mut s, self.uri.as_str());
        push_char(&mut s, ' ');
        push_str(&mut s, self.version.as_str());
        push_char(&mut s, '\r');
        push_char(&mut s, '\n');
        push_headers(&mut s, &self.headers);
        push_char(&mut s, '\r');
        push_char(&mut s, '\n');
        let body = lossy_string(self.body.as_slice());
        push_str(&mut s, body.as_str());
        s
    }

    /// Parses the text form of a request.
    pub fn parse(input: &str) -> (r: Option<Self>)
        ensures
            match r {
                Some(req) => parse_request_text(input@) == Some(req@),
                None => parse_request_text(input@) is None,
            },
    {
        let v = chars_of(input);
        let e0 = find_crlf_exec(&v, 0);
        proof {
            lemma_find_crlf(v@, 0);
        }
        let toks = ws_token_ranges(&v, 0, e0);
        if toks.len() < 3 {
            return None;
        }
        let parts = strings_of_ranges(&v, &toks, 0);
        assert(range_texts(v@, toks@).subrange(0, toks@.len() as int) == range_texts(v@, toks@));
        let ghost t = ws_tokens(v@, 0, e0 as int);
        assert(parts@[0]@ == t[0]);
        assert(parts@[1]@ == t[1]);
        assert(parts@[2]@ == t[2]);
        let method = Method::from(parts[0].as_str());
        let uri = copy_string(&parts[1]);
        let version = copy_string(&parts[2]);
        let (headers, b) = parse_header_section(&v, e0);
        let body = utf8_of_range(&v, b, v.len());
        Some(SipRequest { method, uri, version, headers, body })
    }
}

impl SipResponse {
    /// A response with the given status and reason, version `SIP/2.0`, no
    /// headers and an empty body.
    pub fn new(status_code: u16, reason: &str) -> (r: Self)
        ensures
            r@ == (SipResponseView {
                status_code,
                reason: reason@,
                version: sip_version(),
                headers: seq![],
                body: seq![],
            }),
    {
        let mut u = String::new();
        push_str(&mut u, reason);
        assert(Seq::<char>::empty() + reason@ == reason@);
        proof {
            reveal_strlit("SIP/2.0");
        }
        let version = String::from_str("SIP/2.0");
        assert(version@ == sip_version());
        let r = SipResponse {
            status_code,
            reason: u,
            version,
            headers: Vec::new(),
            body: Vec::new(),
        };
        assert(headers_view(r.headers@) == Seq::<(Seq<char>, Seq<char>)>::empty());
        r
    }

    /// The response with header `name` set to `value` (see `set_header`).
    pub fn with_header(self, name: &str, value: &str) -> (r: Self)
        ensures
            r@ == (SipResponseView { headers: header_set(self@.headers, name@, value@), ..self@ }),
    {
        let mut r = self;
        r.set_header(name, value);
        r
    }

    /// The text form of the response.
    pub fn to_string(&self) -> (s: String)
        ensures
            s@ == response_text(self@),
    {
        let mut s = copy_string(&self.version);
        push_char(&mut s, ' ');
        push_decimal(&mut s, self.status_code as u64);
        push_char(&mut s, ' ');
        push_str(&mut s, self.reason.as_str());
        push_char(&mut s, '\r');
        push_char(&mut s, '\n');
        push_headers(&mut s, &self.headers);
        push_char(&mut s, '\r');
        push_char(&mut s, '\n');
        let body = lossy_string(self.body.as_slice());
        push_str(&mut s, body.as_str());
        s
    }

    /// Parses the text form of a response.
    pub fn parse(input: &str) -> (r: Option<Self>)
        ensures
            match r {
                Some(res) => parse_response_text(input@) == Some(res@),
                None => parse_response_text(input@) is None,
            },
    {
        let v = chars_of(input);
        let e0 = find_crlf_exec(&v, 0);
        proof {
            lemma_find_crlf(v@, 0);
        }
        let toks = ws_token_ranges(&v, 0, e0);
        if toks.len() < 2 {
            return None;
        }
        let ghost t = ws_tokens(v@, 0, e0 as int);
        assert(range_texts(v@, toks@)[1] == t[1]);
        let code = match parse_uint_exec(&v, toks[1].0, toks[1].1, 65535) {
            Some(c) => c as u16,
            None => return None,
        };
        let version = string_of_range(&v, toks[0].0, toks[0].1);
        assert(range_texts(v@, toks@)[0] == t[0]);
        let mut reason = String::new();
        let mut k: usize = 2;
        assert(t.subrange(2, 2) == Seq::<Seq<char>>::empty());
        while k < toks.len()
            invariant
                2 <= k <= toks@.len(),
                t == range_texts(v@, toks@),
                forall|m: int| 0 <= m < toks@.len() ==> (#[trigger] toks@[m]).0 <= toks@[m].1 <= e0,
                e0 <= v@.len(),
                reason@ == join(t.subrange(2, k as int), seq![' ']),
            decreases toks@.len() - k,
        {
            let ghost before = reason@;
            let ghost next = t.subrange(2, k + 1);
            assert(next.drop_last() == t.subrange(2, k as int));
            assert(next.last() == t[k as int]);
            if k > 2 {
                push_char(&mut reason, ' ');
            } else {
                assert(before == Seq::<char>::empty());
            }
            push_range(&mut reason, &v, toks[k].0, toks[k].1);
            assert(t[k as int] == v@.subrange(toks@[k as int].0 as int, toks@[k as int].1 as int));
            if k == 2 {
                assert(reason@ == next[0]);
            }
            k = k + 1;
        }
        let (headers, b) = parse_header_section(&v, e0);
        let body = utf8_of_range(&v, b, v.len());
        Some(SipResponse { status_code: code, reason, version, headers, body })
    }
}

impl SipMessage {
    /// Parses a message: a response when the text starts with `SIP/2.0`,
    /// otherwise a request.
    pub fn parse(input: &str) -> (r: Option<Self>)
        ensures
            match r {
                Some(m) => parse_message_text(input@) == Some(m@),
                None => parse_message_text(input@) is None,
            },
    {
        let v = chars_of(input);
        proof {
            reveal_strlit("SIP/2.0");
        }
        assert("SIP/2.0"@ == sip_version());
        if has_prefix_exec(&v, "SIP/2.0") {
            match SipResponse::parse(input) {
                Some(r) => Some(SipMessage::Response(r)),
                None => None,
            }
        } else {
            match SipRequest::parse(input) {
                Some(r) => Some(SipMessage::Request(r)),
                None => None,
            }
        }
    }

    /// The text form of the message.
    pub fn to_string(&self) -> (s: String)
        ensures
            s@ == message_text(self@),
    {
        match self {
            SipMessage::Request(req) => req.to_string(),
            SipMessage::Response(res) => res.to_string(),
        }
    }
}

} // verus!
