//! What offer/answer negotiation keeps of the two session descriptions.
use vstd::prelude::*;
use crate::media::sdp::{
    common_formats, media_index, negotiate_sessions, negotiated_media, prefix_index,
    rtpmap_attributes, rtpmap_prefix, SdpMediaView, SdpSessionView,
};
use crate::text::has_prefix;

verus! {

/// The formats both sides list are exactly those kept, in the order of the
/// first list.
pub proof fn lemma_common_formats(mine: Seq<Seq<char>>, theirs: Seq<Seq<char>>)
    ensures
        forall|x: Seq<char>| #[trigger] common_formats(mine, theirs).contains(x) <==> (mine.contains(x)
            && theirs.contains(x)),
        common_formats(mine, theirs).len() <= mine.len(),
    decreases mine.len(),
{
    if mine.len() > 0 {
        let p = mine.drop_last();
        let last = mine.last();
        lemma_common_formats(p, theirs);
        let r = common_formats(p, theirs);
        let c = common_formats(mine, theirs);
        assert(mine == p.push(last));
        lemma_push_contains(p, last);
        lemma_push_contains(r, last);
        if theirs.contains(last) {
            assert(c == r.push(last));
        } else {
            assert(c == r);
        }
    }
}

/// What a sequence with one more item at the end contains.
proof fn lemma_push_contains(p: Seq<Seq<char>>, x: Seq<char>)
    ensures
        forall|y: Seq<char>| #[trigger] p.push(x).contains(y) <==> (p.contains(y) || y == x),
{
    let q = p.push(x);
    assert forall|y: Seq<char>| #[trigger] q.contains(y) <==> (p.contains(y) || y == x) by {
        if q.contains(y) {
            let i = choose|i: int| 0 <= i < q.len() && q[i] == y;
            if i < p.len() {
                assert(p[i] == y);
            }
        }
        if p.contains(y) {
            let i = choose|i: int| 0 <= i < p.len() && p[i] == y;
            assert(q[i] == y);
        }
        if y == x {
            assert(q[p.len() as int] == y);
        }
    }
}

/// `r` is what negotiating `m` against `other` gives: same type, port and
/// transport, and as formats those that both `m` and the first description
/// of its type in `other` list.
pub open spec fn negotiated_from(r: SdpMediaView, m: SdpMediaView, other: Seq<SdpMediaView>) -> bool {
    let j = media_index(other, m.media_type, 0);
    &&& j < other.len()
    &&& r.media_type == m.media_type
    &&& r.port == m.port
    &&& r.transport == m.transport
    &&& r.formats == common_formats(m.formats, other[j].formats)
    &&& rtpmaps_kept(r.formats, r.attributes, m.attributes)
    &&& rtpmaps_kept(r.formats, r.attributes, other[j].attributes)
    &&& forall|x: Seq<char>| #[trigger] r.attributes.contains(x) ==> m.attributes.contains(x)
        || other[j].attributes.contains(x)
}

/// `attrs[i]` is the first attribute of `attrs` that starts with `rtpmap:<f>`.
pub open spec fn rtpmap_of(attrs: Seq<Seq<char>>, f: Seq<char>, i: int) -> bool {
    &&& 0 <= i < attrs.len()
    &&& has_prefix(attrs[i], rtpmap_prefix() + f)
    &&& forall|k: int| 0 <= k < i ==> !has_prefix(#[trigger] attrs[k], rtpmap_prefix() + f)
}

/// For every format in `fmts` that `attrs` has an `rtpmap:<format>` attribute
/// for, `out` holds the first such attribute.
pub open spec fn rtpmaps_kept(fmts: Seq<Seq<char>>, out: Seq<Seq<char>>, attrs: Seq<Seq<char>>) -> bool {
    forall|f: Seq<char>, i: int| fmts.contains(f) && #[trigger] rtpmap_of(attrs, f, i) ==> out.contains(
        attrs[i],
    )
}

proof fn lemma_prefix_index(attrs: Seq<Seq<char>>, p: Seq<char>, i: int)
    requires
        0 <= i <= attrs.len(),
    ensures
        i <= prefix_index(attrs, p, i) <= attrs.len(),
        prefix_index(attrs, p, i) < attrs.len() ==> has_prefix(attrs[prefix_index(attrs, p, i)], p),
        forall|k: int| i <= k < prefix_index(attrs, p, i) ==> !has_prefix(#[trigger] attrs[k], p),
    decreases attrs.len() - i,
{
    if i < attrs.len() && !has_prefix(attrs[i], p) {
        lemma_prefix_index(attrs, p, i + 1);
    }
}

/// The `rtpmap` attributes kept for a list of formats: for each format, the
/// first `rtpmap:<format>` attribute of either side, and nothing that neither
/// side lists.
pub proof fn lemma_rtpmap_attributes(fmts: Seq<Seq<char>>, mine: Seq<Seq<char>>, theirs: Seq<Seq<char>>)
    ensures
        rtpmaps_kept(fmts, rtpmap_attributes(fmts, mine, theirs), mine),
        rtpmaps_kept(fmts, rtpmap_attributes(fmts, mine, theirs), theirs),
        forall|x: Seq<char>| #[trigger] rtpmap_attributes(fmts, mine, theirs).contains(x) ==> mine.contains(x)
            || theirs.contains(x),
    decreases fmts.len(),
{
    let res = rtpmap_attributes(fmts, mine, theirs);
    if fmts.len() == 0 {
        assert forall|f: Seq<char>, i: int| fmts.contains(f) && #[trigger] rtpmap_of(mine, f, i) implies res.contains(mine[i]) by {
            assert(!fmts.contains(f));
        }
        assert forall|f: Seq<char>, i: int| fmts.contains(f) && #[trigger] rtpmap_of(theirs, f, i) implies res.contains(theirs[i]) by {
            assert(!fmts.contains(f));
        }
        assert forall|x: Seq<char>| #[trigger] res.contains(x) implies mine.contains(x) || theirs.contains(x) by {
            assert(res.len() == 0);
        }
        return;
    }
    let p = fmts.drop_last();
    let f0 = fmts.last();
    lemma_rtpmap_attributes(p, mine, theirs);
    let acc = rtpmap_attributes(p, mine, theirs);
    let pr = rtpmap_prefix() + f0;
    let i0 = prefix_index(mine, pr, 0);
    let j0 = prefix_index(theirs, pr, 0);
    lemma_prefix_index(mine, pr, 0);
    lemma_prefix_index(theirs, pr, 0);
    let acc1 = if i0 < mine.len() {
        acc.push(mine[i0])
    } else {
        acc
    };
    assert(res == if j0 < theirs.len() && !acc1.contains(theirs[j0]) {
        acc1.push(theirs[j0])
    } else {
        acc1
    });
    assert(fmts == p.push(f0));
    lemma_push_contains(p, f0);
    if i0 < mine.len() {
        lemma_push_contains(acc, mine[i0]);
    }
    if j0 < theirs.len() && !acc1.contains(theirs[j0]) {
        lemma_push_contains(acc1, theirs[j0]);
    }
    assert forall|x: Seq<char>| acc.contains(x) implies #[trigger] res.contains(x) by {
        assert(acc1.contains(x));
    }
    assert forall|f: Seq<char>, i: int| fmts.contains(f) && #[trigger] rtpmap_of(mine, f, i) implies res.contains(mine[i]) by {
        if p.contains(f) {
            assert(acc.contains(mine[i]));
        } else {
            assert(f == f0);
            if i0 != i {
                if i0 < i {
                    assert(!has_prefix(mine[i0], pr));
                } else {
                    assert(!has_prefix(mine[i], pr));
                }
            }
            assert(acc1.contains(mine[i0]));
        }
    }
    assert forall|f: Seq<char>, i: int| fmts.contains(f) && #[trigger] rtpmap_of(theirs, f, i) implies res.contains(theirs[i]) by {
        if p.contains(f) {
            assert(acc.contains(theirs[i]));
        } else {
            assert(f == f0);
            if j0 != i {
                if j0 < i {
                    assert(!has_prefix(theirs[j0], pr));
                } else {
                    assert(!has_prefix(theirs[i], pr));
                }
            }
        }
    }
    assert forall|x: Seq<char>| #[trigger] res.contains(x) implies mine.contains(x) || theirs.contains(x) by {
        if j0 < theirs.len() && x == theirs[j0] {
            assert(theirs.contains(x));
        } else if acc1.contains(x) {
            if i0 < mine.len() && x == mine[i0] {
                assert(mine.contains(x));
            } else {
                assert(acc.contains(x));
            }
        }
    }
}

/// Every negotiated media description comes from one of `mine`: same type,
/// port and transport, at least one format, and as formats exactly those
/// that both it and the first description of its type in `other` list.
pub proof fn lemma_negotiated_media(mine: Seq<SdpMediaView>, other: Seq<SdpMediaView>)
    ensures
        negotiated_media(mine, other).len() <= mine.len(),
        forall|k: int|
            0 <= k < negotiated_media(mine, other).len() ==> ({
                let r = #[trigger] negotiated_media(mine, other)[k];
                &&& r.formats.len() > 0
                &&& exists|i: int| 0 <= i < mine.len() && #[trigger] negotiated_from(r, mine[i], other)
            }),
    decreases mine.len(),
{
    if mine.len() > 0 {
        let p = mine.drop_last();
        lemma_negotiated_media(p, other);
        let prev = negotiated_media(p, other);
        let res = negotiated_media(mine, other);
        let last = mine.len() - 1;
        assert(mine.last() == mine[last]);
        assert forall|k: int| 0 <= k < res.len() implies ({
            let r = #[trigger] res[k];
            &&& r.formats.len() > 0
            &&& exists|i: int| 0 <= i < mine.len() && #[trigger] negotiated_from(r, mine[i], other)
        }) by {
            if k < prev.len() {
                assert(res[k] == prev[k]);
                let r = prev[k];
                let i = choose|i: int| 0 <= i < p.len() && #[trigger] negotiated_from(r, p[i], other);
                assert(mine[i] == p[i]);
            } else {
                let m = mine[last];
                let j = media_index(other, m.media_type, 0);
                lemma_rtpmap_attributes(
                    common_formats(m.formats, other[j].formats),
                    m.attributes,
                    other[j].attributes,
                );
                assert(negotiated_from(res[k], mine[last], other));
            }
        }
    }
}

/// Negotiation answers exactly when some media description is negotiated,
/// and the answer carries the negotiated media.
pub proof fn lemma_negotiate_answers(a: SdpSessionView, b: SdpSessionView)
    ensures
        negotiate_sessions(a, b) is Some <==> negotiated_media(a.media, b.media).len() > 0,
        negotiate_sessions(a, b) is Some ==> negotiate_sessions(a, b)->0.media == negotiated_media(
            a.media,
            b.media,
        ),
{
}

} // verus!
