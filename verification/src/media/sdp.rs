//! SDP session descriptions (RFC 4566): text form, parsing, and offer/answer
//! negotiation of media formats.
use vstd::prelude::*;
use crate::text::{
    has_prefix_chars,    chars_of, copy_string, decimal, find_char, find_char_exec, has_prefix, join,
    lemma_find_char, parse_uint, parse_uint_exec, push_char, push_decimal, push_range, push_str,
    range_texts, string_of_range, strings_of_ranges, ws_token_ranges, ws_tokens,
};

verus! {

/// One media description (`m=` line and its `a=` lines).
#[derive(Debug, Clone)]
pub struct SdpMediaDescription {
    pub media_type: String,
    pub port: u16,
    pub transport: String,
    pub formats: Vec<String>,
    pub attributes: Vec<String>,
}

/// A session description.
#[derive(Debug, Clone)]
pub struct SdpSession {
    pub version: u32,
    pub owner: String,
    pub session_name: String,
    pub connection_info: String,
    pub time_description: String,
    pub media_descriptions: Vec<SdpMediaDescription>,
}

/// The mathematical value of an `SdpMediaDescription`.
#[verifier::ext_equal]
pub struct SdpMediaView {
    pub media_type: Seq<char>,
    pub port: u16,
    pub transport: Seq<char>,
    pub formats: Seq<Seq<char>>,
    pub attributes: Seq<Seq<char>>,
}

/// The mathematical value of an `SdpSession`.
#[verifier::ext_equal]
pub struct SdpSessionView {
    pub version: u32,
    pub owner: Seq<char>,
    pub session_name: Seq<char>,
    pub connection_info: Seq<char>,
    pub time_description: Seq<char>,
    pub media: Seq<SdpMediaView>,
}

pub open spec fn strings_view(v: Seq<String>) -> Seq<Seq<char>> {
    v.map_values(|s: String| s@)
}

impl View for SdpMediaDescription {
    type V = SdpMediaView;

    open spec fn view(&self) -> SdpMediaView {
        SdpMediaView {
            media_type: self.media_type@,
            port: self.port,
            transport: self.transport@,
            formats: strings_view(self.formats@),
            attributes: strings_view(self.attributes@),
        }
    }
}

pub open spec fn medias_view(v: Seq<SdpMediaDescription>) -> Seq<SdpMediaView> {
    v.map_values(|m: SdpMediaDescription| m@)
}

impl View for SdpSession {
    type V = SdpSessionView;

    open spec fn view(&self) -> SdpSessionView {
        SdpSessionView {
            version: self.version,
            owner: self.owner@,
            session_name: self.session_name@,
            connection_info: self.connection_info@,
            time_description: self.time_description@,
            media: medias_view(self.media_descriptions@),
        }
    }
}

/// `" 12345 67890 IN IP4 "`, the fixed part of the owner line.
pub open spec fn owner_middle() -> Seq<char> {
    seq![' ', '1', '2', '3', '4', '5', ' ', '6', '7', '8', '9', '0', ' ', 'I', 'N', ' ', 'I', 'P', '4', ' ']
}

/// `"IN IP4 "`, the fixed part of the connection line.
pub open spec fn in_ip4() -> Seq<char> {
    seq!['I', 'N', ' ', 'I', 'P', '4', ' ']
}

/// The session that `SdpSession::new` makes: version 0, owner
/// `<name> 12345 67890 IN IP4 <ip>`, connection `IN IP4 <ip>`, time `0 0`, no media.
pub open spec fn new_session(owner_name: Seq<char>, session_name: Seq<char>, ip: Seq<char>) -> SdpSessionView {
    SdpSessionView {
        version: 0,
        owner: owner_name + owner_middle() + ip,
        session_name: session_name,
        connection_info: in_ip4() + ip,
        time_description: seq!['0', ' ', '0'],
        media: seq![],
    }
}

pub open spec fn crlf() -> Seq<char> {
    seq!['\r', '\n']
}

/// The lines of one media description.
pub open spec fn media_text(m: SdpMediaView) -> Seq<char> {
    seq!['m', '='] + m.media_type + seq![' '] + decimal(m.port as nat) + seq![' '] + m.transport
        + seq![' '] + join(m.formats, seq![' ']) + crlf() + attributes_text(m.attributes)
}

/// `a=<attribute>` and CRLF for each attribute.
pub open spec fn attributes_text(a: Seq<Seq<char>>) -> Seq<char>
    decreases a.len(),
{
    if a.len() == 0 {
        seq![]
    } else {
        attributes_text(a.drop_last()) + seq!['a', '='] + a.last() + crlf()
    }
}

pub open spec fn medias_text(ms: Seq<SdpMediaView>) -> Seq<char>
    decreases ms.len(),
{
    if ms.len() == 0 {
        seq![]
    } else {
        medias_text(ms.drop_last()) + media_text(ms.last())
    }
}

/// The text form of a session description.
pub open spec fn session_text(s: SdpSessionView) -> Seq<char> {
    seq!['v', '='] + decimal(s.version as nat) + crlf() + seq!['o', '='] + s.owner + crlf() + seq![
        's',
        '=',
    ] + s.session_name + crlf() + seq!['c', '='] + s.connection_info + crlf() + seq!['t', '=']
        + s.time_description + crlf() + medias_text(s.media)
}

/// The state of the line-by-line parse: the session so far and the media
/// description whose attributes are being read, if any.
pub struct SdpParseState {
    pub session: SdpSessionView,
    pub current: Option<SdpMediaView>,
}

/// The end of the line that starts at `pos` and whose `\n` (or the text's end)
/// is at `e`: a `\r` before the `\n` is not part of the line (`str::lines`).
pub open spec fn line_end(s: Seq<char>, pos: int, e: int) -> int {
    if e < s.len() && e > pos && s[e - 1] == '\r' {
        e - 1
    } else {
        e
    }
}

/// The session with the current media description (if any) appended.
pub open spec fn flush_current(st: SdpParseState) -> SdpSessionView {
    match st.current {
        Some(m) => SdpSessionView { media: st.session.media.push(m), ..st.session },
        None => st.session,
    }
}

/// One SDP line `s[a..b]`: `None` when the parse fails on it.
pub open spec fn sdp_step(s: Seq<char>, a: int, b: int, st: SdpParseState) -> Option<SdpParseState> {
    if a >= b {
        Some(st)
    } else {
        let q = find_char(s, '=', a, b);
        let v = s.subrange(q + 1, b);
        if q >= b {
            None
        } else if q != a + 1 {
            Some(st)
        } else if s[a] == 'v' {
            match parse_uint(v, u32::MAX as nat) {
                Some(n) => Some(SdpParseState { session: SdpSessionView { version: n as u32, ..st.session }, ..st }),
                None => None,
            }
        } else if s[a] == 'o' {
            Some(SdpParseState { session: SdpSessionView { owner: v, ..st.session }, ..st })
        } else if s[a] == 's' {
            Some(SdpParseState { session: SdpSessionView { session_name: v, ..st.session }, ..st })
        } else if s[a] == 'c' {
            Some(SdpParseState { session: SdpSessionView { connection_info: v, ..st.session }, ..st })
        } else if s[a] == 't' {
            Some(SdpParseState { session: SdpSessionView { time_description: v, ..st.session }, ..st })
        } else if s[a] == 'm' {
            let session = flush_current(st);
            let parts = ws_tokens(s, q + 1, b);
            if parts.len() >= 4 {
                match parse_uint(parts[1], 65535) {
                    Some(port) => Some(
                        SdpParseState {
                            session,
                            current: Some(
                                SdpMediaView {
                                    media_type: parts[0],
                                    port: port as u16,
                                    transport: parts[2],
                                    formats: parts.subrange(3, parts.len() as int),
                                    attributes: seq![],
                                },
                            ),
                        },
                    ),
                    None => None,
                }
            } else {
                Some(SdpParseState { session, current: None })
            }
        } else if s[a] == 'a' {
            match st.current {
                Some(m) => Some(SdpParseState { current: Some(SdpMediaView { attributes: m.attributes.push(v), ..m }), ..st }),
                None => Some(st),
            }
        } else {
            Some(st)
        }
    }
}

/// The parse of the lines from `pos` on, starting in state `st`.
pub open spec fn sdp_lines(s: Seq<char>, pos: int, st: SdpParseState) -> Option<SdpParseState>
    decreases s.len() - pos,
{
    if pos < 0 || pos >= s.len() {
        Some(st)
    } else {
        let e = find_char(s, '\n', pos, s.len() as int);
        proof {
            lemma_find_char(s, '\n', pos, s.len() as int);
        }
        match sdp_step(s, pos, line_end(s, pos, e), st) {
            None => None,
            Some(st2) => if e < s.len() {
                sdp_lines(s, e + 1, st2)
            } else {
                Some(st2)
            },
        }
    }
}

/// What `SdpSession::parse` makes of a text: its lines read in order from an
/// empty session (`SdpSession::new("", "", "")`); `None` when a non-empty line
/// has no `=`, or a version or port is not a number of its type.
pub open spec fn parse_session_text(s: Seq<char>) -> Option<SdpSessionView> {
    match sdp_lines(s, 0, SdpParseState { session: new_session(seq![], seq![], seq![]), current: None }) {
        Some(st) => Some(flush_current(st)),
        None => None,
    }
}

/// Index of the first media description of type `t`, or the length.
pub open spec fn media_index(ms: Seq<SdpMediaView>, t: Seq<char>, i: int) -> int
    decreases ms.len() - i,
{
    if i >= ms.len() {
        ms.len() as int
    } else if ms[i].media_type == t {
        i
    } else {
        media_index(ms, t, i + 1)
    }
}

/// The formats of `mine` that `theirs` also lists, in the order of `mine`.
pub open spec fn common_formats(mine: Seq<Seq<char>>, theirs: Seq<Seq<char>>) -> Seq<Seq<char>>
    decreases mine.len(),
{
    if mine.len() == 0 {
        seq![]
    } else {
        let r = common_formats(mine.drop_last(), theirs);
        if theirs.contains(mine.last()) {
            r.push(mine.last())
        } else {
            r
        }
    }
}

/// `"rtpmap:"`.
pub open spec fn rtpmap_prefix() -> Seq<char> {
    seq!['r', 't', 'p', 'm', 'a', 'p', ':']
}

/// Index of the first attribute that starts with `p`, or the length.
pub open spec fn prefix_index(attrs: Seq<Seq<char>>, p: Seq<char>, i: int) -> int
    decreases attrs.len() - i,
{
    if i >= attrs.len() {
        attrs.len() as int
    } else if has_prefix(attrs[i], p) {
        i
    } else {
        prefix_index(attrs, p, i + 1)
    }
}

/// The negotiated attributes for `fmts`: for each format in order, the first
/// `rtpmap:<format>` attribute of `mine`, then that of `theirs` unless it is
/// already listed.
pub open spec fn rtpmap_attributes(fmts: Seq<Seq<char>>, mine: Seq<Seq<char>>, theirs: Seq<Seq<char>>) -> Seq<Seq<char>>
    decreases fmts.len(),
{
    if fmts.len() == 0 {
        seq![]
    } else {
        let acc = rtpmap_attributes(fmts.drop_last(), mine, theirs);
        let p = rtpmap_prefix() + fmts.last();
        let i = prefix_index(mine, p, 0);
        let acc1 = if i < mine.len() {
            acc.push(mine[i])
        } else {
            acc
        };
        let j = prefix_index(theirs, p, 0);
        if j < theirs.len() && !acc1.contains(theirs[j]) {
            acc1.push(theirs[j])
        } else {
            acc1
        }
    }
}

/// The negotiated media descriptions: for each of `mine`, in order, whose type
/// the first description of that type in `other` shares at least one format
/// with, that media with the common formats and their `rtpmap` attributes.
pub open spec fn negotiated_media(mine: Seq<SdpMediaView>, other: Seq<SdpMediaView>) -> Seq<SdpMediaView>
    decreases mine.len(),
{
    if mine.len() == 0 {
        seq![]
    } else {
        let prev = negotiated_media(mine.drop_last(), other);
        let m = mine.last();
        let k = media_index(other, m.media_type, 0);
        if k < other.len() {
            let o = other[k];
            let f = common_formats(m.formats, o.formats);
            if f.len() > 0 {
                prev.push(
                    SdpMediaView {
                        media_type: m.media_type,
                        port: m.port,
                        transport: m.transport,
                        formats: f,
                        attributes: rtpmap_attributes(f, m.attributes, o.attributes),
                    },
                )
            } else {
                prev
            }
        } else {
            prev
        }
    }
}

/// `"softphone"`.
pub open spec fn softphone_name() -> Seq<char> {
    seq!['s', 'o', 'f', 't', 'p', 'h', 'o', 'n', 'e']
}

/// `"Negotiated Session"`.
pub open spec fn negotiated_name() -> Seq<char> {
    seq!['N', 'e', 'g', 'o', 't', 'i', 'a', 't', 'e', 'd', ' ', 'S', 'e', 's', 's', 'i', 'o', 'n']
}

/// `"0.0.0.0"`.
pub open spec fn any_address() -> Seq<char> {
    seq!['0', '.', '0', '.', '0', '.', '0']
}

/// The answer that `negotiate` gives: a fresh session owned by `softphone`
/// with the negotiated media, or nothing when no media is negotiated.
pub open spec fn negotiate_sessions(a: SdpSessionView, b: SdpSessionView) -> Option<SdpSessionView> {
    let ms = negotiated_media(a.media, b.media);
    if ms.len() == 0 {
        None
    } else {
        Some(SdpSessionView { media: ms, ..new_session(softphone_name(), negotiated_name(), any_address()) })
    }
}


fn literal(s: &str) -> (r: String)
    ensures
        r@ == s@,
{
    let mut r = String::new();
    push_str(&mut r, s);
    assert(Seq::<char>::empty() + s@ == s@);
    r
}

fn copy_strings(v: &Vec<String>) -> (r: Vec<String>)
    ensures
        strings_view(r@) == strings_view(v@),
{
    let mut r: Vec<String> = Vec::new();
    let mut k: usize = 0;
    while k < v.len()
        invariant
            k <= v@.len(),
            strings_view(r@) == strings_view(v@).subrange(0, k as int),
        decreases v@.len() - k,
    {
        let ghost old_r = r@;
        r.push(copy_string(&v[k]));
        assert(strings_view(r@) == strings_view(old_r).push(v@[k as int]@));
        assert(strings_view(v@).subrange(0, k + 1) == strings_view(v@).subrange(0, k as int).push(
            v@[k as int]@,
        ));
        k = k + 1;
    }
    assert(strings_view(v@).subrange(0, v@.len() as int) == strings_view(v@));
    r
}

fn copy_media(m: &SdpMediaDescription) -> (r: SdpMediaDescription)
    ensures
        r@ == m@,
{
    SdpMediaDescription {
        media_type: copy_string(&m.media_type),
        port: m.port,
        transport: copy_string(&m.transport),
        formats: copy_strings(&m.formats),
        attributes: copy_strings(&m.attributes),
    }
}

/// Appends `ts` joined by single spaces.
fn push_joined(s: &mut String, ts: &Vec<String>)
    ensures
        final(s)@ == old(s)@ + join(strings_view(ts@), seq![' ']),
{
    let ghost tv = strings_view(ts@);
    let mut k: usize = 0;
    assert(tv.subrange(0, 0) == Seq::<Seq<char>>::empty());
    assert(old(s)@ + Seq::<char>::empty() == old(s)@);
    while k < ts.len()
        invariant
            tv == strings_view(ts@),
            k <= ts@.len(),
            s@ == old(s)@ + join(tv.subrange(0, k as int), seq![' ']),
        decreases ts@.len() - k,
    {
        let ghost before = s@;
        let ghost next = tv.subrange(0, k + 1);
        assert(next.drop_last() == tv.subrange(0, k as int));
        assert(next.last() == tv[k as int]);
        if k > 0 {
            push_char(s, ' ');
        }
        push_str(s, ts[k].as_str());
        if k == 0 {
            assert(join(next, seq![' ']) == next[0]);
            assert(s@ == before + tv[0]);
        } else {
            assert(s@ == before + seq![' '] + tv[k as int]);
        }
        k = k + 1;
    }
    assert(tv.subrange(0, ts@.len() as int) == tv);
}

fn push_crlf(s: &mut String)
    ensures
        final(s)@ == old(s)@ + crlf(),
{
    push_char(s, '\r');
    push_char(s, '\n');
}

fn push_media(s: &mut String, m: &SdpMediaDescription)
    ensures
        final(s)@ == old(s)@ + media_text(m@),
{
    push_char(s, 'm');
    push_char(s, '=');
    push_str(s, m.media_type.as_str());
    push_char(s, ' ');
    push_decimal(s, m.port as u64);
    push_char(s, ' ');
    push_str(s, m.transport.as_str());
    push_char(s, ' ');
    push_joined(s, &m.formats);
    push_crlf(s);
    let ghost mid = s@;
    let ghost av = strings_view(m.attributes@);
    let mut k: usize = 0;
    assert(av.subrange(0, 0) == Seq::<Seq<char>>::empty());
    assert(mid + Seq::<char>::empty() == mid);
    while k < m.attributes.len()
        invariant
            av == strings_view(m.attributes@),
            k <= m.attributes@.len(),
            s@ == mid + attributes_text(av.subrange(0, k as int)),
        decreases m.attributes@.len() - k,
    {
        let ghost next = av.subrange(0, k + 1);
        assert(next.drop_last() == av.subrange(0, k as int));
        assert(next.last() == av[k as int]);
        push_char(s, 'a');
        push_char(s, '=');
        push_str(s, m.attributes[k].as_str());
        push_crlf(s);
        k = k + 1;
    }
    assert(av.subrange(0, m.attributes@.len() as int) == av);
}

impl SdpSession {
    /// A session with version 0, owner `<owner_name> 12345 67890 IN IP4 <ip>`,
    /// connection `IN IP4 <ip>`, time `0 0` and no media.
    pub fn new(owner_name: &str, session_name: &str, connection_ip: &str) -> (s: Self)
        ensures
            s@ == new_session(owner_name@, session_name@, connection_ip@),
    {
        proof {
            reveal_strlit(" 12345 67890 IN IP4 ");
            reveal_strlit("IN IP4 ");
            reveal_strlit("0 0");
        }
        assert(" 12345 67890 IN IP4 "@ == owner_middle());
        assert("IN IP4 "@ == in_ip4());
        assert("0 0"@ == seq!['0', ' ', '0']);
        let mut owner = literal(owner_name);
        push_str(&mut owner, " 12345 67890 IN IP4 ");
        push_str(&mut owner, connection_ip);
        let mut connection_info = literal("IN IP4 ");
        push_str(&mut connection_info, connection_ip);
        assert(owner@ == owner_name@ + owner_middle() + connection_ip@);
        assert(connection_info@ == in_ip4() + connection_ip@);
        let s = Self {
            version: 0,
            owner,
            session_name: literal(session_name),
            connection_info,
            time_description: literal("0 0"),
            media_descriptions: Vec::new(),
        };
        assert(medias_view(s.media_descriptions@) == Seq::<SdpMediaView>::empty());
        s
    }

    /// Appends a media description.
    pub fn add_media(&mut self, media: SdpMediaDescription)
        ensures
            final(self)@ == (SdpSessionView { media: old(self)@.media.push(media@), ..old(self)@ }),
    {
        self.media_descriptions.push(media);
        assert(medias_view(self.media_descriptions@) == medias_view(old(self).media_descriptions@).push(media@));
    }

    /// The text form of the session: `v=`, `o=`, `s=`, `c=`, `t=` lines, then
    /// each media description's `m=` and `a=` lines, each line ended by CRLF.
    pub fn to_string(&self) -> (r: String)
        ensures
            r@ == session_text(self@),
    {
        let mut s = String::new();
        push_char(&mut s, 'v');
        push_char(&mut s, '=');
        push_decimal(&mut s, self.version as u64);
        push_crlf(&mut s);
        push_char(&mut s, 'o');
        push_char(&mut s, '=');
        push_str(&mut s, self.owner.as_str());
        push_crlf(&mut s);
        push_char(&mut s, 's');
        push_char(&mut s, '=');
        push_str(&mut s, self.session_name.as_str());
        push_crlf(&mut s);
        push_char(&mut s, 'c');
        push_char(&mut s, '=');
        push_str(&mut s, self.connection_info.as_str());
        push_crlf(&mut s);
        push_char(&mut s, 't');
        push_char(&mut s, '=');
        push_str(&mut s, self.time_description.as_str());
        push_crlf(&mut s);
        let ghost mid = s@;
        let ghost mv = medias_view(self.media_descriptions@);
        assert(mv.subrange(0, 0) == Seq::<SdpMediaView>::empty());
        assert(mid + Seq::<char>::empty() == mid);
        let mut k: usize = 0;
        while k < self.media_descriptions.len()
            invariant
                mv == medias_view(self.media_descriptions@),
                k <= self.media_descriptions@.len(),
                s@ == mid + medias_text(mv.subrange(0, k as int)),
            decreases self.media_descriptions@.len() - k,
        {
            let ghost next = mv.subrange(0, k + 1);
            assert(next.drop_last() == mv.subrange(0, k as int));
            assert(next.last() == mv[k as int]);
            push_media(&mut s, &self.media_descriptions[k]);
            k = k + 1;
        }
        assert(mv.subrange(0, self.media_descriptions@.len() as int) == mv);
        s
    }
}


pub open spec fn opt_media_view(m: Option<SdpMediaDescription>) -> Option<SdpMediaView> {
    match m {
        Some(x) => Some(x@),
        None => None,
    }
}

pub open spec fn parse_state(session: SdpSession, current: Option<SdpMediaDescription>) -> SdpParseState {
    SdpParseState { session: session@, current: opt_media_view(current) }
}

/// Reads the SDP line `v[a..b]` into the parse state.
fn sdp_line(
    v: &Vec<char>,
    a: usize,
    b: usize,
    session: SdpSession,
    current: Option<SdpMediaDescription>,
) -> (r: Option<(SdpSession, Option<SdpMediaDescription>)>)
    requires
        a <= b <= v@.len(),
    ensures
        match r {
            Some(x) => sdp_step(v@, a as int, b as int, parse_state(session, current)) == Some(
                parse_state(x.0, x.1),
            ),
            None => sdp_step(v@, a as int, b as int, parse_state(session, current)) is None,
        },
{
    if a >= b {
        return Some((session, current));
    }
    let q = find_char_exec(v, '=', a, b);
    if q >= b {
        return None;
    }
    if q != a + 1 {
        return Some((session, current));
    }
    let key = v[a];
    let mut session = session;
    if key == 'v' {
        match parse_uint_exec(v, q + 1, b, u32::MAX as u64) {
            Some(n) => {
                session.version = n as u32;
                Some((session, current))
            },
            None => None,
        }
    } else if key == 'o' {
        session.owner = string_of_range(v, q + 1, b);
        Some((session, current))
    } else if key == 's' {
        session.session_name = string_of_range(v, q + 1, b);
        Some((session, current))
    } else if key == 'c' {
        session.connection_info = string_of_range(v, q + 1, b);
        Some((session, current))
    } else if key == 't' {
        session.time_description = string_of_range(v, q + 1, b);
        Some((session, current))
    } else if key == 'm' {
        let ghost st = parse_state(session, current);
        match current {
            Some(m) => {
                let ghost mv = m@;
                session.media_descriptions.push(m);
                assert(medias_view(session.media_descriptions@) == st.session.media.push(mv));
            },
            None => {},
        }
        assert(session@ == flush_current(st));
        let toks = ws_token_ranges(v, q + 1, b);
        let ghost parts = ws_tokens(v@, q + 1, b as int);
        if toks.len() >= 4 {
            assert(range_texts(v@, toks@)[1] == parts[1]);
            match parse_uint_exec(v, toks[1].0, toks[1].1, 65535) {
                Some(port) => {
                    let formats = strings_of_ranges(v, &toks, 3);
                    let media_type = string_of_range(v, toks[0].0, toks[0].1);
                    let transport = string_of_range(v, toks[2].0, toks[2].1);
                    assert(range_texts(v@, toks@)[0] == parts[0]);
                    assert(range_texts(v@, toks@)[2] == parts[2]);
                    let m = SdpMediaDescription {
                        media_type,
                        port: port as u16,
                        transport,
                        formats,
                        attributes: Vec::new(),
                    };
                    assert(strings_view(m.attributes@) == Seq::<Seq<char>>::empty());
                    assert(strings_view(m.formats@) == parts.subrange(3, parts.len() as int));
                    Some((session, Some(m)))
                },
                None => None,
            }
        } else {
            Some((session, None))
        }
    } else if key == 'a' {
        match current {
            Some(m) => {
                let mut m = m;
                let ghost before = m@;
                m.attributes.push(string_of_range(v, q + 1, b));
                assert(strings_view(m.attributes@) == before.attributes.push(
                    v@.subrange(q + 1, b as int),
                ));
                Some((session, Some(m)))
            },
            None => Some((session, None)),
        }
    } else {
        Some((session, current))
    }
}

impl SdpSession {
    /// Parses a session description line by line (`str::lines`). Empty lines
    /// are skipped; a line's key is the text before its first `=`. `v=` must
    /// hold a `u32`; `o=`, `s=`, `c=`, `t=` set their fields; `m=` with at
    /// least four tokens starts a media description (its port must be a
    /// `u16`), with fewer it ends the current one; `a=` adds an attribute to
    /// the current media description; other keys are ignored. `None` when a
    /// non-empty line has no `=` or a number does not parse.
    pub fn parse(input: &str) -> (r: Option<Self>)
        ensures
            match r {
                Some(x) => parse_session_text(input@) == Some(x@),
                None => parse_session_text(input@) is None,
            },
    {
        let v = chars_of(input);
        let n = v.len();
        proof {
            reveal_strlit("");
        }
        assert(""@ == Seq::<char>::empty());
        let mut session = SdpSession::new("", "", "");
        let mut current: Option<SdpMediaDescription> = None;
        let ghost init = SdpParseState {
            session: new_session(seq![], seq![], seq![]),
            current: None,
        };
        assert(parse_state(session, current) == init);
        let mut pos: usize = 0;
        while pos < n
            invariant
                n == v@.len(),
                v@ == input@,
                init == (SdpParseState {
                    session: new_session(seq![], seq![], seq![]),
                    current: None,
                }),
                pos <= n,
                sdp_lines(v@, pos as int, parse_state(session, current)) == sdp_lines(v@, 0, init),
            decreases n - pos,
        {
            let e = find_char_exec(&v, '\n', pos, n);
            proof {
                lemma_find_char(v@, '\n', pos as int, n as int);
            }
            let b = if e < n && e > pos && v[e - 1] == '\r' {
                e - 1
            } else {
                e
            };
            assert(b == line_end(v@, pos as int, e as int));
            let ghost st0 = parse_state(session, current);
            match sdp_line(&v, pos, b, session, current) {
                None => {
                    assert(sdp_step(v@, pos as int, b as int, st0) is None);
                    assert(sdp_lines(v@, pos as int, st0) is None);
                    assert(sdp_lines(v@, 0, init) is None);
                    return None;
                },
                Some((s2, c2)) => {
                    session = s2;
                    current = c2;
                },
            }
            if e < n {
                pos = e + 1;
            } else {
                pos = n;
            }
        }
        let ghost st = parse_state(session, current);
        match current {
            Some(m) => {
                session.media_descriptions.push(m);
                assert(medias_view(session.media_descriptions@) == st.session.media.push(st.current->0));
            },
            None => {},
        }
        Some(session)
    }
}


pub fn media_index_exec(ms: &Vec<SdpMediaDescription>, t: &String) -> (k: usize)
    ensures
        k == media_index(medias_view(ms@), t@, 0),
        k <= ms@.len(),
{
    let ghost mv = medias_view(ms@);
    let mut k: usize = 0;
    while k < ms.len()
        invariant
            mv == medias_view(ms@),
            k <= ms@.len(),
            media_index(mv, t@, k as int) == media_index(mv, t@, 0),
        decreases ms@.len() - k,
    {
        if ms[k].media_type == *t {
            return k;
        }
        k = k + 1;
    }
    k
}

fn contains_string(v: &Vec<String>, x: &String) -> (r: bool)
    ensures
        r == strings_view(v@).contains(x@),
{
    let mut k: usize = 0;
    while k < v.len()
        invariant
            k <= v@.len(),
            forall|j: int| 0 <= j < k ==> strings_view(v@)[j] != x@,
        decreases v@.len() - k,
    {
        if v[k] == *x {
            assert(strings_view(v@)[k as int] == x@);
            return true;
        }
        k = k + 1;
    }
    false
}

fn common_formats_exec(mine: &Vec<String>, theirs: &Vec<String>) -> (r: Vec<String>)
    ensures
        strings_view(r@) == common_formats(strings_view(mine@), strings_view(theirs@)),
{
    let ghost mv = strings_view(mine@);
    let ghost tv = strings_view(theirs@);
    let mut r: Vec<String> = Vec::new();
    let mut k: usize = 0;
    assert(mv.subrange(0, 0) == Seq::<Seq<char>>::empty());
    while k < mine.len()
        invariant
            mv == strings_view(mine@),
            tv == strings_view(theirs@),
            k <= mine@.len(),
            strings_view(r@) == common_formats(mv.subrange(0, k as int), tv),
        decreases mine@.len() - k,
    {
        let ghost next = mv.subrange(0, k + 1);
        assert(next.drop_last() == mv.subrange(0, k as int));
        assert(next.last() == mv[k as int]);
        if contains_string(theirs, &mine[k]) {
            let ghost old_r = r@;
            r.push(copy_string(&mine[k]));
            assert(strings_view(r@) == strings_view(old_r).push(mv[k as int]));
        }
        k = k + 1;
    }
    assert(mv.subrange(0, mine@.len() as int) == mv);
    r
}

fn prefix_index_exec(attrs: &Vec<String>, p: &Vec<char>) -> (k: usize)
    ensures
        k == prefix_index(strings_view(attrs@), p@, 0),
        k <= attrs@.len(),
{
    let ghost av = strings_view(attrs@);
    let mut k: usize = 0;
    while k < attrs.len()
        invariant
            av == strings_view(attrs@),
            k <= attrs@.len(),
            prefix_index(av, p@, k as int) == prefix_index(av, p@, 0),
        decreases attrs@.len() - k,
    {
        let a = chars_of(attrs[k].as_str());
        if has_prefix_chars(&a, p) {
            return k;
        }
        k = k + 1;
    }
    k
}

fn rtpmap_attributes_exec(fmts: &Vec<String>, mine: &Vec<String>, theirs: &Vec<String>) -> (r: Vec<String>)
    ensures
        strings_view(r@) == rtpmap_attributes(strings_view(fmts@), strings_view(mine@), strings_view(theirs@)),
{
    let ghost fv = strings_view(fmts@);
    let ghost mv = strings_view(mine@);
    let ghost tv = strings_view(theirs@);
    proof {
        reveal_strlit("rtpmap:");
    }
    assert("rtpmap:"@ == rtpmap_prefix());
    let mut r: Vec<String> = Vec::new();
    let mut k: usize = 0;
    assert(fv.subrange(0, 0) == Seq::<Seq<char>>::empty());
    while k < fmts.len()
        invariant
            fv == strings_view(fmts@),
            mv == strings_view(mine@),
            tv == strings_view(theirs@),
            "rtpmap:"@ == rtpmap_prefix(),
            k <= fmts@.len(),
            strings_view(r@) == rtpmap_attributes(fv.subrange(0, k as int), mv, tv),
        decreases fmts@.len() - k,
    {
        let ghost next = fv.subrange(0, k + 1);
        assert(next.drop_last() == fv.subrange(0, k as int));
        assert(next.last() == fv[k as int]);
        let mut p = String::new();
        push_str(&mut p, "rtpmap:");
        push_str(&mut p, fmts[k].as_str());
        let pv = chars_of(p.as_str());
        assert(pv@ == rtpmap_prefix() + fv[k as int]);
        let i = prefix_index_exec(mine, &pv);
        if i < mine.len() {
            let ghost old_r = r@;
            r.push(copy_string(&mine[i]));
            assert(strings_view(r@) == strings_view(old_r).push(mv[i as int]));
        }
        let j = prefix_index_exec(theirs, &pv);
        if j < theirs.len() {
            if !contains_string(&r, &theirs[j]) {
                let ghost old_r = r@;
                r.push(copy_string(&theirs[j]));
                assert(strings_view(r@) == strings_view(old_r).push(tv[j as int]));
            }
        }
        k = k + 1;
    }
    assert(fv.subrange(0, fmts@.len() as int) == fv);
    r
}

impl SdpSession {
    /// Negotiates an answer: for each of our media descriptions, in order,
    /// the first of `other`'s descriptions of the same media type; when they
    /// share formats, the answer carries our description with the shared
    /// formats (in our order) and their `rtpmap` attributes. `None` when no
    /// media description is negotiated.
    pub fn negotiate(&self, other: &SdpSession) -> (r: Option<SdpSession>)
        ensures
            match r {
                Some(x) => negotiate_sessions(self@, other@) == Some(x@),
                None => negotiate_sessions(self@, other@) is None,
            },
    {
        proof {
            reveal_strlit("softphone");
            reveal_strlit("Negotiated Session");
            reveal_strlit("0.0.0.0");
        }
        assert("softphone"@ == softphone_name());
        assert("Negotiated Session"@ == negotiated_name());
        assert("0.0.0.0"@ == any_address());
        let mut result = SdpSession::new("softphone", "Negotiated Session", "0.0.0.0");
        let ghost fresh = result@;
        let ghost mv = medias_view(self.media_descriptions@);
        let ghost ov = medias_view(other.media_descriptions@);
        let mut i: usize = 0;
        assert(mv.subrange(0, 0) == Seq::<SdpMediaView>::empty());
        while i < self.media_descriptions.len()
            invariant
                mv == medias_view(self.media_descriptions@),
                ov == medias_view(other.media_descriptions@),
                fresh == new_session(softphone_name(), negotiated_name(), any_address()),
                i <= self.media_descriptions@.len(),
                result@ == (SdpSessionView { media: negotiated_media(mv.subrange(0, i as int), ov), ..fresh }),
            decreases self.media_descriptions@.len() - i,
        {
            let ghost next = mv.subrange(0, i + 1);
            assert(next.drop_last() == mv.subrange(0, i as int));
            assert(next.last() == mv[i as int]);
            let my = &self.media_descriptions[i];
            let k = media_index_exec(&other.media_descriptions, &my.media_type);
            if k < other.media_descriptions.len() {
                let om = &other.media_descriptions[k];
                let common = common_formats_exec(&my.formats, &om.formats);
                if common.len() > 0 {
                    let attrs = rtpmap_attributes_exec(&common, &my.attributes, &om.attributes);
                    result.add_media(
                        SdpMediaDescription {
                            media_type: copy_string(&my.media_type),
                            port: my.port,
                            transport: copy_string(&my.transport),
                            formats: common,
                            attributes: attrs,
                        },
                    );
                }
            }
            i = i + 1;
        }
        assert(mv.subrange(0, self.media_descriptions@.len() as int) == mv);
        if result.media_descriptions.len() == 0 {
            None
        } else {
            Some(result)
        }
    }
}

} // verus!
