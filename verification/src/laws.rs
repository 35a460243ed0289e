//! The library's laws: identity coherence, navigation closure and the
//! parse/display round trip, stated over the spec functions the public
//! contracts use and proved once and for all.

use crate::loc::{lemma_join_then_parent, parent_of, parent_or_empty};
use crate::pct::{has_escape_shape, lemma_pct_encode_no_hash, lemma_pct_round_trip, pct_decode,
    pct_encode};
use crate::scan::{first_match, lemma_first_match_is, lemma_first_match_none, match_at};
use crate::scheme::{proto_archive, proto_regular, proto_search, proto_sftp, sep3,
    spec_parse_name, spec_scheme_parse, valid_name, ErrView, SchemeView,
    lemma_prefix_until_sep_is};
use crate::url::{fold_hash_of, reg_class, spec_base_url, spec_display, spec_hash_input,
    spec_join_url, spec_rebase,
    spec_local, spec_parent_url, spec_url_parse, url_eq, wf_url, UrlView};
use vstd::prelude::*;

verus! {

/// Hash/Eq coherence: equal Urls hash equally, except for the fragment
/// pair a Search container deliberately folds into its hash (two equal
/// Search containers whose queries differ hash apart; the asymmetry is
/// intentional upstream behaviour, so those pairs stay outside this law).
pub proof fn lemma_eq_hash_coherence(a: UrlView, b: UrlView)
    requires
        url_eq(a, b),
        a.scheme == SchemeView::Search ==> a.frag == b.frag,
    ensures
        spec_hash_input(a) == spec_hash_input(b),
        fold_hash_of(spec_hash_input(a)) == fold_hash_of(spec_hash_input(b)),
{
    if reg_class(a.scheme) {
        assert(reg_class(b.scheme));
    } else {
        assert(a.scheme == b.scheme);
    }
}

/// Navigation closure: joining one plain segment (non-empty, free of
/// separators, not `..`) under a Regular Url at a normalized path and
/// taking the parent returns to the original location.
pub proof fn lemma_join_then_parent_regular(u: UrlView, seg: Seq<u8>)
    requires
        u.scheme == SchemeView::Regular,
        u.path.len() > 0,
        u.path.last() == 47 ==> u.path =~= seq![47u8],
        seg.len() > 0,
        forall|k: int| 0 <= k < seg.len() ==> seg[k] != 47,
        seg != seq![46u8, 46u8],
    ensures
        spec_parent_url(spec_join_url(u, seg)) == Some(spec_local(u.path)),
        url_eq(spec_local(u.path), u),
{
    lemma_join_then_parent(u.path, seg);
}

/// SearchItem demotion: joining one plain segment under a Search container
/// yields a SearchItem whose parent is the container itself again.
pub proof fn lemma_search_join_then_parent(u: UrlView, seg: Seq<u8>)
    requires
        u.scheme == SchemeView::Search,
        u.path.len() > 0,
        u.path.last() == 47 ==> u.path =~= seq![47u8],
        seg.len() > 0,
        forall|k: int| 0 <= k < seg.len() ==> seg[k] != 47,
    ensures
        spec_parent_url(spec_join_url(u, seg)) == Some(
            UrlView {
                path: u.path,
                base: parent_or_empty(u.path),
                scheme: SchemeView::Search,
                frag: Seq::empty(),
            },
        ),
        url_eq(spec_parent_url(spec_join_url(u, seg))->Some_0, u),
{
    lemma_join_then_parent(u.path, seg);
    let j = spec_join_url(u, seg);
    assert(j.scheme == SchemeView::SearchItem && j.base == u.path);
    assert(parent_of(j.path) == Some(u.path));
}

/// Every Url a constructor or a navigation step yields from a well-formed
/// one is well-formed again: bare-path schemes never gain a fragment and a
/// remote connection name is never altered.
pub proof fn lemma_navigation_preserves_wf(u: UrlView, rel: Seq<u8>, frag: Seq<u8>, path: Seq<u8>)
    requires
        wf_url(u),
    ensures
        wf_url(spec_local(path)),
        wf_url(spec_join_url(u, rel)),
        wf_url(spec_base_url(u)),
        spec_parent_url(u) matches Some(v) ==> wf_url(v),
        wf_url(UrlView { path: u.path, base: u.base, scheme: SchemeView::Search, frag }),
        wf_url(spec_rebase(u, path)),
{
}

/// Parsing only ever yields well-formed Urls: a Regular result carries no
/// fragment, a remote result a validated connection name, and no result
/// is ever a SearchItem.
pub proof fn lemma_parse_wf(s: Seq<u8>)
    ensures
        spec_url_parse(s) matches Ok(v) ==> wf_url(v) && v.scheme != SchemeView::SearchItem,
{
}

/// The wire form `proto ++ :// ++ tail` splits back at the prefix when the
/// scheme name holds no colon.
proof fn lemma_wire_prefix(proto: Seq<u8>, tail: Seq<u8>)
    requires
        forall|k: int| 0 <= k < proto.len() ==> proto[k] != 58,
    ensures
        first_match(proto + sep3() + tail, sep3()) == Some(proto.len() as int),
        (proto + sep3() + tail).take(proto.len() as int) == proto,
        (proto + sep3() + tail).skip(proto.len() as int + 3) == tail,
{
    let s = proto + sep3() + tail;
    assert(match_at(s, sep3(), proto.len() as int)) by {
        assert(s.subrange(proto.len() as int, proto.len() as int + 3) =~= sep3());
    }
    assert forall|j: int| 0 <= j < proto.len() implies !match_at(s, sep3(), j) by {
        if match_at(s, sep3(), j) {
            assert(s.subrange(j, j + 3)[0] == 58);
            assert(s[j] == proto[j]);
        }
    }
    lemma_first_match_is(s, sep3(), proto.len() as int);
    assert(s.take(proto.len() as int) =~= proto);
    assert(s.skip(proto.len() as int + 3) =~= tail);
}

/// The encoded remainder `enc(path) [++ # ++ enc(frag)]` splits back at
/// the `#` and decodes to the path and fragment it came from.
proof fn lemma_tail_split(path: Seq<u8>, frag: Seq<u8>)
    requires
        !has_escape_shape(path),
        !has_escape_shape(frag),
    ensures
        ({
            let tail = pct_encode(path) + (if frag.len() == 0 {
                Seq::<u8>::empty()
            } else {
                seq![35u8] + pct_encode(frag)
            });
            &&& (frag.len() == 0 ==> first_match(tail, seq![35u8]) is None && pct_decode(tail)
                == path)
            &&& (frag.len() > 0 ==> first_match(tail, seq![35u8]) == Some(
                pct_encode(path).len() as int,
            ) && pct_decode(tail.take(pct_encode(path).len() as int)) == path && pct_decode(
                tail.skip(pct_encode(path).len() as int + 1),
            ) == frag)
        }),
{
    let ep = pct_encode(path);
    lemma_pct_encode_no_hash(path);
    lemma_pct_round_trip(path);
    if frag.len() == 0 {
        let tail = ep + Seq::<u8>::empty();
        assert(tail =~= ep);
        assert forall|j: int| 0 <= j implies !match_at(tail, seq![35u8], j) by {
            if match_at(tail, seq![35u8], j) {
                assert(tail.subrange(j, j + 1)[0] == 35);
                assert(tail[j] == ep[j]);
            }
        }
        lemma_first_match_none(tail, seq![35u8]);
    } else {
        lemma_pct_encode_no_hash(frag);
        lemma_pct_round_trip(frag);
        let tail = ep + (seq![35u8] + pct_encode(frag));
        assert(match_at(tail, seq![35u8], ep.len() as int)) by {
            assert(tail.subrange(ep.len() as int, ep.len() as int + 1) =~= seq![35u8]);
        }
        assert forall|j: int| 0 <= j < ep.len() implies !match_at(tail, seq![35u8], j) by {
            if match_at(tail, seq![35u8], j) {
                assert(tail.subrange(j, j + 1)[0] == 35);
                assert(tail[j] == ep[j]);
            }
        }
        lemma_first_match_is(tail, seq![35u8], ep.len() as int);
        assert(tail.take(ep.len() as int) =~= ep);
        assert(tail.skip(ep.len() as int + 1) =~= pct_encode(frag));
    }
}

/// Round trip: parsing the wire form of a well-formed Url succeeds and
/// yields an equal Url with the same location text and fragment.  A
/// bare-path Url whose text holds a `://`, and an encoded location or
/// fragment already holding an escape-shaped `%XX` run, parse elsewhere
/// and stay outside this law.
pub proof fn lemma_parse_display_round_trip(u: UrlView)
    requires
        wf_url(u),
        reg_class(u.scheme) ==> first_match(u.path, sep3()) is None,
        !reg_class(u.scheme) ==> !has_escape_shape(u.path) && !has_escape_shape(u.frag),
    ensures
        spec_url_parse(spec_display(u)) matches Ok(v) && url_eq(v, u) && v.path == u.path
            && v.frag == u.frag,
{
    let s = spec_display(u);
    if reg_class(u.scheme) {
        assert(spec_scheme_parse(s) == Ok::<_, ErrView>((SchemeView::Regular, 0int)));
        assert(s.skip(0) =~= s);
        assert(u.frag =~= Seq::<u8>::empty());
        let v = spec_url_parse(s)->Ok_0;
        assert(v == spec_local(u.path));
    } else {
        let tail = pct_encode(u.path) + (if u.frag.len() == 0 {
            Seq::<u8>::empty()
        } else {
            seq![35u8] + pct_encode(u.frag)
        });
        lemma_tail_split(u.path, u.frag);
        match u.scheme {
            SchemeView::Search => {
                assert(s =~= proto_search() + sep3() + tail);
                assert forall|k: int| 0 <= k < proto_search().len() implies proto_search()[k]
                    != 58 by {}
                lemma_wire_prefix(proto_search(), tail);
                let w = proto_search() + sep3() + tail;
                assert(first_match(s, sep3()) == Some(6int));
                assert(s.take(6) == proto_search());
                assert(proto_search() != proto_regular());
                assert(spec_scheme_parse(s) == Ok::<_, ErrView>((SchemeView::Search, 9int)));
                assert(s.skip(9) == tail);
            },
            SchemeView::Archive => {
                assert(s =~= proto_archive() + sep3() + tail);
                assert forall|k: int| 0 <= k < proto_archive().len() implies proto_archive()[k]
                    != 58 by {}
                lemma_wire_prefix(proto_archive(), tail);
                assert(first_match(s, sep3()) == Some(7int));
                assert(s.take(7) == proto_archive());
                assert(proto_archive() != proto_regular()) by {
                    assert(proto_archive()[0] != proto_regular()[0]);
                }
                assert(proto_archive() != proto_search());
                assert(spec_scheme_parse(s) == Ok::<_, ErrView>((SchemeView::Archive, 10int)));
                assert(s.skip(10) == tail);
            },
            SchemeView::Sftp(n) => {
                let mid = n + seq![47u8] + tail;
                assert(s =~= proto_sftp() + sep3() + mid);
                assert forall|k: int| 0 <= k < proto_sftp().len() implies proto_sftp()[k]
                    != 58 by {}
                lemma_wire_prefix(proto_sftp(), mid);
                assert(first_match(s, sep3()) == Some(4int));
                assert(s.take(4) == proto_sftp());
                assert(spec_scheme_parse(s) == Ok::<_, ErrView>(
                    (SchemeView::Sftp(n), 7 + n.len() as int + 1),
                )) by {
                    assert(valid_name(n));
                    assert forall|k: int| 0 <= k < n.len() implies mid[k] != 47 by {
                        assert(mid[k] == n[k]);
                    }
                    assert(mid[n.len() as int] == 47);
                    lemma_prefix_until_sep_is(mid, n.len() as int);
                    assert(mid.take(n.len() as int) =~= n);
                    assert(n.len() < mid.len());
                    assert(spec_parse_name(mid) == Ok::<_, ErrView>((n, n.len() as int + 1)));
                }
                assert(s.skip(7 + n.len() as int + 1) =~= tail);
            },
            _ => {
                assert(false);
            },
        }
        if u.frag.len() == 0 {
            let v = spec_url_parse(s)->Ok_0;
            assert(v.path == u.path && v.scheme == u.scheme);
            assert(v.frag =~= u.frag);
        } else {
            let v = spec_url_parse(s)->Ok_0;
            assert(v.path == u.path && v.scheme == u.scheme && v.frag == u.frag);
        }
    }
}

} // verus!
