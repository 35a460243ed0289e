//! The Url value: a location, a scheme tag and a fragment, with parsing,
//! display, navigation and the identity semantics that let a Url serve as
//! a cache or selection key.

use crate::loc::{join_of, parent_of, parent_or_empty, urn_of, join_bytes, parent_bytes, Loc};
use crate::pct::{pct_decode, pct_encode, decode_bytes, encode_bytes};
use crate::scan::{eq_bytes, find_seq, first_match, lemma_first_match_from};
use crate::scheme::{
    scheme_prefix, spec_scheme_parse, valid_name, ErrView, Scheme, SchemeView,
    UrlError,
};
use std::hash::BuildHasher;
use vstd::prelude::*;
use vstd::slice::{slice_subrange, slice_to_vec};

verus! {

/// Mathematical image of a [`Url`].
#[verifier::ext_equal]
pub ghost struct UrlView {
    /// The full path of the location.
    pub path: Seq<u8>,
    /// The recorded base anchor of the location.
    pub base: Seq<u8>,
    /// The backend tag.
    pub scheme: SchemeView,
    /// The fragment: the query of a Search container, opaque otherwise.
    pub frag: Seq<u8>,
}

/// The schemes whose Url is a bare path on the wire and which collapse
/// onto one identity: Regular and SearchItem.
pub open spec fn reg_class(s: SchemeView) -> bool {
    s == SchemeView::Regular || s == SchemeView::SearchItem
}

/// Url equality: locations equal, and either both schemes in the
/// {Regular, SearchItem} class or the schemes strictly equal (the remote
/// connection name included).  The fragment never takes part.
pub open spec fn url_eq(a: UrlView, b: UrlView) -> bool {
    a.path == b.path && ((reg_class(a.scheme) && reg_class(b.scheme)) || a.scheme == b.scheme)
}

/// Well-formedness: a {Regular, SearchItem} Url carries no fragment, and a
/// remote scheme carries a valid connection name.  Every constructor
/// establishes this and every operation preserves it.
pub open spec fn wf_url(u: UrlView) -> bool {
    (reg_class(u.scheme) ==> u.frag.len() == 0) && (match u.scheme {
        SchemeView::Sftp(n) => valid_name(n),
        _ => true,
    })
}

/// A bare path wrapped as a Regular Url.
pub open spec fn spec_local(path: Seq<u8>) -> UrlView {
    UrlView {
        path,
        base: parent_or_empty(path),
        scheme: SchemeView::Regular,
        frag: Seq::empty(),
    }
}

/// The Url of the logical container: the location's base under the same
/// scheme, except that a SearchItem's container is always a Search.
pub open spec fn spec_base_url(u: UrlView) -> UrlView {
    UrlView {
        path: u.base,
        base: parent_or_empty(u.base),
        scheme: if u.scheme == SchemeView::SearchItem {
            SchemeView::Search
        } else {
            u.scheme
        },
        frag: Seq::empty(),
    }
}

/// Join: a plain path join under the same scheme, except that Search
/// promotes the result to a SearchItem anchored at the current location,
/// and SearchItem keeps its existing anchor.
pub open spec fn spec_join_url(u: UrlView, rel: Seq<u8>) -> UrlView {
    let joined = join_of(u.path, rel);
    match u.scheme {
        SchemeView::Regular => UrlView {
            path: joined,
            base: parent_or_empty(joined),
            scheme: SchemeView::Regular,
            frag: Seq::empty(),
        },
        SchemeView::Search => UrlView {
            path: joined,
            base: u.path,
            scheme: SchemeView::SearchItem,
            frag: Seq::empty(),
        },
        SchemeView::SearchItem => UrlView {
            path: joined,
            base: u.base,
            scheme: SchemeView::SearchItem,
            frag: Seq::empty(),
        },
        SchemeView::Archive => UrlView {
            path: joined,
            base: parent_or_empty(joined),
            scheme: SchemeView::Archive,
            frag: Seq::empty(),
        },
        SchemeView::Sftp(n) => UrlView {
            path: joined,
            base: parent_or_empty(joined),
            scheme: SchemeView::Sftp(n),
            frag: Seq::empty(),
        },
    }
}

/// Parent: none where the location has none; a SearchItem whose parent is
/// its recorded anchor demotes to the Search container, one farther down
/// stays a SearchItem; an Archive parent decays to Regular, as upstream
/// behaviour has it (the archive context is lost).
pub open spec fn spec_parent_url(u: UrlView) -> Option<UrlView> {
    match parent_of(u.path) {
        None => None,
        Some(par) => Some(
            match u.scheme {
                SchemeView::Regular => UrlView {
                    path: par,
                    base: parent_or_empty(par),
                    scheme: SchemeView::Regular,
                    frag: Seq::empty(),
                },
                SchemeView::Search => UrlView {
                    path: par,
                    base: parent_or_empty(par),
                    scheme: SchemeView::Search,
                    frag: Seq::empty(),
                },
                SchemeView::SearchItem => if par == u.base {
                    UrlView {
                        path: par,
                        base: parent_or_empty(par),
                        scheme: SchemeView::Search,
                        frag: Seq::empty(),
                    }
                } else {
                    UrlView { path: par, base: u.base, scheme: SchemeView::SearchItem, frag: Seq::empty() }
                },
                SchemeView::Archive => UrlView {
                    path: par,
                    base: parent_or_empty(par),
                    scheme: SchemeView::Regular,
                    frag: Seq::empty(),
                },
                SchemeView::Sftp(n) => UrlView {
                    path: par,
                    base: parent_or_empty(par),
                    scheme: SchemeView::Sftp(n),
                    frag: Seq::empty(),
                },
            },
        ),
    }
}

/// Rename of the final path segment, everything else untouched.
pub open spec fn spec_set_name(u: UrlView, name: Seq<u8>) -> UrlView {
    UrlView {
        path: match parent_of(u.path) {
            Some(par) => join_of(par, name),
            None => name,
        },
        base: u.base,
        scheme: u.scheme,
        frag: u.frag,
    }
}

/// Re-anchoring of a Regular Url under a new parent: the local identifier
/// joined below it, wrapped as a fresh Regular Url.
pub open spec fn spec_rebase(u: UrlView, parent: Seq<u8>) -> UrlView {
    spec_local(join_of(parent, urn_of(u.path, u.base)))
}

/// The wire form: Regular and SearchItem print the bare location text;
/// every other scheme prints its prefix, the percent-encoded location, and
/// a `#` with the percent-encoded fragment where one is present.
pub open spec fn spec_display(u: UrlView) -> Seq<u8> {
    if reg_class(u.scheme) {
        u.path
    } else {
        scheme_prefix(u.scheme) + pct_encode(u.path) + (if u.frag.len() == 0 {
            Seq::<u8>::empty()
        } else {
            seq![35u8] + pct_encode(u.frag)
        })
    }
}

/// What the stable hash digests: always the location; a scheme tag for
/// every scheme outside the {Regular, SearchItem} class, the remote
/// connection name never; for Search also the fragment.
pub open spec fn spec_hash_input(u: UrlView) -> Seq<u8> {
    if reg_class(u.scheme) {
        u.path
    } else {
        match u.scheme {
            SchemeView::Search => seq![1u8] + u.path + seq![35u8] + u.frag,
            SchemeView::Archive => seq![2u8] + u.path,
            _ => seq![3u8] + u.path,
        }
    }
}

/// What parsing a wire form yields.  The scheme prefix is consumed first;
/// a Regular remainder is the location text itself, undecoded and without
/// a fragment; any other remainder splits at the first `#` and both parts
/// are percent-decoded.
pub open spec fn spec_url_parse(s: Seq<u8>) -> Result<UrlView, ErrView> {
    match spec_scheme_parse(s) {
        Err(e) => Err(e),
        Ok((sch, k)) => {
            let rest = s.skip(k);
            if sch == SchemeView::Regular {
                Ok(spec_local(rest))
            } else {
                let path = pct_decode(
                    match first_match(rest, seq![35u8]) {
                        None => rest,
                        Some(j) => rest.take(j),
                    },
                );
                let frag = match first_match(rest, seq![35u8]) {
                    None => Seq::<u8>::empty(),
                    Some(j) => pct_decode(rest.skip(j + 1)),
                };
                Ok(UrlView { path, base: parent_or_empty(path), scheme: sch, frag })
            }
        },
    }
}

/// Result of foldhash's fixed-seed hasher on a byte slice.
pub uninterp spec fn fold_hash_of(s: Seq<u8>) -> u64;

/// Relies on foldhash::fast::FixedState: a BuildHasher with a constant
/// seed, whose output depends on the hashed bytes alone.
#[verifier::external_body]
fn fold_hash_bytes(s: &[u8]) -> (r: u64)
    ensures
        r == fold_hash_of(s@),
{
    foldhash::fast::FixedState::default().hash_one(s)
}

/// An address of a resource in one of several backends: a hierarchical
/// location, the scheme tag naming the backend, and an opaque fragment.
#[derive(Debug)]
pub struct Url {
    /// The hierarchical location.
    pub loc: Loc,
    /// The backend tag.
    pub scheme: Scheme,
    /// The fragment: the query of a Search container, opaque otherwise.
    pub frag: Vec<u8>,
}

impl View for Url {
    type V = UrlView;

    open spec fn view(&self) -> UrlView {
        UrlView { path: self.loc.path@, base: self.loc.base@, scheme: self.scheme@, frag: self.frag@ }
    }
}

impl Clone for Scheme {
    /// An equal scheme, the connection name copied.
    fn clone(&self) -> (r: Scheme)
        ensures
            r@ == self@,
    {
        match self {
            Scheme::Regular => Scheme::Regular,
            Scheme::Search => Scheme::Search,
            Scheme::SearchItem => Scheme::SearchItem,
            Scheme::Archive => Scheme::Archive,
            Scheme::Sftp(n) => Scheme::Sftp(slice_to_vec(n.as_slice())),
        }
    }
}

impl Clone for Loc {
    /// An equal location: same path, same base anchor.
    fn clone(&self) -> (r: Loc)
        ensures
            r.path@ == self.path@,
            r.base@ == self.base@,
    {
        Loc { path: slice_to_vec(self.path.as_slice()), base: slice_to_vec(self.base.as_slice()) }
    }
}

impl Clone for Url {
    /// An equal Url, field by field.
    fn clone(&self) -> (r: Url)
        ensures
            r@ == self@,
    {
        let r = Url {
            loc: self.loc.clone(),
            scheme: self.scheme.clone(),
            frag: slice_to_vec(self.frag.as_slice()),
        };
        proof {
            assert(r@ =~= self@);
        }
        r
    }
}

impl Default for Url {
    /// The empty Regular Url.
    fn default() -> (r: Url)
        ensures
            r@ == spec_local(Seq::<u8>::empty()),
    {
        let r = Url {
            loc: Loc { path: Vec::new(), base: Vec::new() },
            scheme: Scheme::Regular,
            frag: Vec::new(),
        };
        proof {
            assert(r@ =~= spec_local(Seq::<u8>::empty()));
        }
        r
    }
}

impl PartialEq for Url {
    /// The identity-key equality of [`url_eq`].
    fn eq(&self, other: &Url) -> (r: bool) {
        if !eq_bytes(self.loc.path.as_slice(), other.loc.path.as_slice()) {
            return false;
        }
        match (&self.scheme, &other.scheme) {
            (Scheme::Regular, Scheme::Regular) => true,
            (Scheme::Regular, Scheme::SearchItem) => true,
            (Scheme::SearchItem, Scheme::Regular) => true,
            (Scheme::SearchItem, Scheme::SearchItem) => true,
            (Scheme::Search, Scheme::Search) => true,
            (Scheme::Archive, Scheme::Archive) => true,
            (Scheme::Sftp(x), Scheme::Sftp(y)) => eq_bytes(x.as_slice(), y.as_slice()),
            _ => false,
        }
    }
}

impl vstd::std_specs::cmp::PartialEqSpecImpl for Url {
    open spec fn obeys_eq_spec() -> bool {
        true
    }

    open spec fn eq_spec(&self, other: &Url) -> bool {
        url_eq(self@, other@)
    }
}

impl Url {
    /// Wraps a bare path as a Regular Url with an empty fragment.
    pub fn local(path: Vec<u8>) -> (r: Url)
        ensures
            r@ == spec_local(path@),
    {
        let r = Url { loc: Loc::from_path(path), scheme: Scheme::Regular, frag: Vec::new() };
        proof {
            assert(r@ =~= spec_local(r@.path));
        }
        r
    }

    /// Wraps a location as a Regular Url, its base anchor kept.
    pub fn from_loc(loc: Loc) -> (r: Url)
        ensures
            r@.path == loc.path@,
            r@.base == loc.base@,
            r@.scheme == SchemeView::Regular,
            r@.frag == Seq::<u8>::empty(),
    {
        let r = Url { loc, scheme: Scheme::Regular, frag: Vec::new() };
        proof {
            assert(r@.frag =~= Seq::<u8>::empty());
        }
        r
    }

    /// Parses a wire form.  Returns the error of [`spec_url_parse`] exactly
    /// when it refuses the input; no partial Url is ever produced.
    pub fn parse(bytes: &[u8]) -> (r: Result<Url, UrlError>)
        ensures
            (match r {
                Ok(u) => spec_url_parse(bytes@) == Ok::<_, ErrView>(u@),
                Err(e) => spec_url_parse(bytes@) == Err::<UrlView, _>(e@),
            }),
    {
        let (scheme, skip) = match Scheme::parse(bytes) {
            Ok(p) => p,
            Err(e) => {
                return Err(e);
            },
        };
        proof {
            crate::scheme::lemma_scheme_consumed_bound(bytes@);
        }
        let rest = slice_subrange(bytes, skip, bytes.len());
        proof {
            assert(rest@ =~= bytes@.skip(skip as int));
        }
        let is_reg = match &scheme {
            Scheme::Regular => true,
            _ => false,
        };
        if is_reg {
            let loc = Loc::from_path(slice_to_vec(rest));
            let u = Url { loc, scheme, frag: Vec::new() };
            proof {
                assert(u@ =~= spec_local(rest@));
            }
            return Ok(u);
        }
        let hash_pat: Vec<u8> = vec![35u8];
        proof {
            assert(hash_pat@ =~= seq![35u8]);
        }
        match find_seq(rest, hash_pat.as_slice()) {
            None => {
                let loc = Loc::from_path(decode_bytes(rest));
                let u = Url { loc, scheme, frag: Vec::new() };
                proof {
                    let w = spec_url_parse(bytes@)->Ok_0;
                    assert(u@ =~= w);
                }
                Ok(u)
            },
            Some(j) => {
                proof {
                    lemma_first_match_from(rest@, seq![35u8], 0);
                }
                let enc = slice_subrange(rest, 0, j);
                let fr = slice_subrange(rest, j + 1, rest.len());
                let loc = Loc::from_path(decode_bytes(enc));
                let frag = decode_bytes(fr);
                let u = Url { loc, scheme, frag };
                proof {
                    assert(enc@ =~= rest@.take(j as int));
                    assert(fr@ =~= rest@.skip(j + 1));
                    let w = spec_url_parse(bytes@)->Ok_0;
                    assert(u@ =~= w);
                }
                Ok(u)
            },
        }
    }

    /// The wire form of the Url, per [`spec_display`].
    pub fn display_bytes(&self) -> (r: Vec<u8>)
        ensures
            r@ == spec_display(self@),
    {
        let is_bare = match &self.scheme {
            Scheme::Regular => true,
            Scheme::SearchItem => true,
            _ => false,
        };
        if is_bare {
            return slice_to_vec(self.loc.path.as_slice());
        }
        let mut v = self.scheme.display_bytes();
        let mut enc = encode_bytes(self.loc.path.as_slice());
        v.append(&mut enc);
        if self.frag.len() > 0 {
            v.push(35);
            let mut ef = encode_bytes(self.frag.as_slice());
            v.append(&mut ef);
            proof {
                assert(v@ =~= spec_display(self@));
            }
            v
        } else {
            proof {
                assert(v@ =~= spec_display(self@));
            }
            v
        }
    }

    /// The Url of the logical container, per [`spec_base_url`].
    pub fn base(&self) -> (r: Url)
        ensures
            r@ == spec_base_url(self@),
    {
        let loc = Loc::from_path(slice_to_vec(self.loc.base.as_slice()));
        let scheme = match &self.scheme {
            Scheme::SearchItem => Scheme::Search,
            s => s.clone(),
        };
        let r = Url { loc, scheme, frag: Vec::new() };
        proof {
            assert(r@ =~= spec_base_url(self@));
        }
        r
    }

    /// The Url joined with a relative part, per [`spec_join_url`].
    pub fn join(&self, rel: &[u8]) -> (r: Url)
        ensures
            r@ == spec_join_url(self@, rel@),
    {
        let joined = join_bytes(self.loc.path.as_slice(), rel);
        let r = match &self.scheme {
            Scheme::Regular => Url {
                loc: Loc::from_path(joined),
                scheme: Scheme::Regular,
                frag: Vec::new(),
            },
            Scheme::Search => Url {
                loc: Loc::with_base(slice_to_vec(self.loc.path.as_slice()), joined),
                scheme: Scheme::SearchItem,
                frag: Vec::new(),
            },
            Scheme::SearchItem => Url {
                loc: Loc::with_base(slice_to_vec(self.loc.base.as_slice()), joined),
                scheme: Scheme::SearchItem,
                frag: Vec::new(),
            },
            Scheme::Archive => Url {
                loc: Loc::from_path(joined),
                scheme: Scheme::Archive,
                frag: Vec::new(),
            },
            Scheme::Sftp(n) => Url {
                loc: Loc::from_path(joined),
                scheme: Scheme::Sftp(slice_to_vec(n.as_slice())),
                frag: Vec::new(),
            },
        };
        proof {
            assert(r@ =~= spec_join_url(self@, rel@));
        }
        r
    }

    /// The parent Url, per [`spec_parent_url`].
    pub fn parent_url(&self) -> (r: Option<Url>)
        ensures
            (match r {
                Some(u) => spec_parent_url(self@) == Some(u@),
                None => spec_parent_url(self@) is None,
            }),
    {
        let par = match parent_bytes(self.loc.path.as_slice()) {
            None => {
                return None;
            },
            Some(p) => p,
        };
        let u = match &self.scheme {
            Scheme::Regular => Url {
                loc: Loc::from_path(par),
                scheme: Scheme::Regular,
                frag: Vec::new(),
            },
            Scheme::Search => Url {
                loc: Loc::from_path(par),
                scheme: Scheme::Search,
                frag: Vec::new(),
            },
            Scheme::SearchItem => {
                if eq_bytes(par.as_slice(), self.loc.base.as_slice()) {
                    Url { loc: Loc::from_path(par), scheme: Scheme::Search, frag: Vec::new() }
                } else {
                    Url {
                        loc: Loc::with_base(slice_to_vec(self.loc.base.as_slice()), par),
                        scheme: Scheme::SearchItem,
                        frag: Vec::new(),
                    }
                }
            },
            // Kept as upstream behaviour has it: the archive context is lost.
            Scheme::Archive => Url {
                loc: Loc::from_path(par),
                scheme: Scheme::Regular,
                frag: Vec::new(),
            },
            Scheme::Sftp(n) => Url {
                loc: Loc::from_path(par),
                scheme: Scheme::Sftp(slice_to_vec(n.as_slice())),
                frag: Vec::new(),
            },
        };
        proof {
            let w = spec_parent_url(self@)->Some_0;
            assert(u@ =~= w);
        }
        Some(u)
    }

    /// The location as a plain path, for the path-expressible schemes
    /// Regular and Search only.
    pub fn as_path(&self) -> (r: Option<&Vec<u8>>)
        ensures
            (match r {
                Some(p) => (self@.scheme == SchemeView::Regular || self@.scheme
                    == SchemeView::Search) && p@ == self@.path,
                None => !(self@.scheme == SchemeView::Regular || self@.scheme
                    == SchemeView::Search),
            }),
    {
        match &self.scheme {
            Scheme::Regular => Some(&self.loc.path),
            Scheme::Search => Some(&self.loc.path),
            _ => None,
        }
    }

    /// Renames the final path segment in place; the sole mutation.
    pub fn set_name(&mut self, name: &[u8])
        ensures
            final(self)@ == spec_set_name(old(self)@, name@),
    {
        let newpath = match parent_bytes(self.loc.path.as_slice()) {
            Some(par) => join_bytes(par.as_slice(), name),
            None => slice_to_vec(name),
        };
        self.loc.path = newpath;
        proof {
            assert(self@ =~= spec_set_name(old(self)@, name@));
        }
    }

    /// The parent Url with the stable local identifier, or none at a root.
    pub fn pair(&self) -> (r: Option<(Url, Vec<u8>)>)
        ensures
            (match r {
                Some(p) => spec_parent_url(self@) == Some(p.0@) && p.1@ == urn_of(
                    self@.path,
                    self@.base,
                ),
                None => spec_parent_url(self@) is None,
            }),
    {
        match self.parent_url() {
            None => None,
            Some(u) => Some((u, self.loc.urn_owned())),
        }
    }

    /// The stable 64-bit hash of the Url's identity, coherent with `==`
    /// except for the fragment a Search container deliberately folds in.
    pub fn hash_u64(&self) -> (r: u64)
        ensures
            r == fold_hash_of(spec_hash_input(self@)),
    {
        let key: Vec<u8> = match &self.scheme {
            Scheme::Regular => slice_to_vec(self.loc.path.as_slice()),
            Scheme::SearchItem => slice_to_vec(self.loc.path.as_slice()),
            Scheme::Search => {
                let mut v: Vec<u8> = vec![1u8];
                let mut p = slice_to_vec(self.loc.path.as_slice());
                v.append(&mut p);
                v.push(35);
                let mut f = slice_to_vec(self.frag.as_slice());
                v.append(&mut f);
                v
            },
            Scheme::Archive => {
                let mut v: Vec<u8> = vec![2u8];
                let mut p = slice_to_vec(self.loc.path.as_slice());
                v.append(&mut p);
                v
            },
            Scheme::Sftp(_) => {
                let mut v: Vec<u8> = vec![3u8];
                let mut p = slice_to_vec(self.loc.path.as_slice());
                v.append(&mut p);
                v
            },
        };
        proof {
            assert(key@ =~= spec_hash_input(self@));
        }
        fold_hash_bytes(key.as_slice())
    }

    /// Re-anchors a Regular Url under a new parent.
    pub fn rebase(&self, parent: &[u8]) -> (r: Url)
        requires
            self@.scheme == SchemeView::Regular,
        ensures
            r@ == spec_rebase(self@, parent@),
    {
        let urn = self.loc.urn_owned();
        let p = join_bytes(parent, urn.as_slice());
        let r = Url { loc: Loc::from_path(p), scheme: Scheme::Regular, frag: Vec::new() };
        proof {
            assert(r@ =~= spec_rebase(self@, parent@));
        }
        r
    }

    /// Whether the scheme is Regular.
    pub fn is_regular(&self) -> (r: bool)
        ensures
            r == (self@.scheme == SchemeView::Regular),
    {
        match &self.scheme {
            Scheme::Regular => true,
            _ => false,
        }
    }

    /// The same location as a Regular Url, scheme and fragment dropped.
    pub fn to_regular(&self) -> (r: Url)
        ensures
            r@.path == self@.path,
            r@.base == self@.base,
            r@.scheme == SchemeView::Regular,
            r@.frag == Seq::<u8>::empty(),
    {
        let r = Url { loc: self.loc.clone(), scheme: Scheme::Regular, frag: Vec::new() };
        proof {
            assert(r@.frag =~= Seq::<u8>::empty());
        }
        r
    }

    /// This Url as Regular, scheme and fragment dropped.
    pub fn into_regular(self) -> (r: Url)
        ensures
            r@.path == self@.path,
            r@.base == self@.base,
            r@.scheme == SchemeView::Regular,
            r@.frag == Seq::<u8>::empty(),
    {
        let r = Url { loc: self.loc, scheme: Scheme::Regular, frag: Vec::new() };
        proof {
            assert(r@.frag =~= Seq::<u8>::empty());
        }
        r
    }

    /// Whether the scheme is Search.
    pub fn is_search(&self) -> (r: bool)
        ensures
            r == (self@.scheme == SchemeView::Search),
    {
        match &self.scheme {
            Scheme::Search => true,
            _ => false,
        }
    }

    /// The same location relabelled as a Search container with the given
    /// query fragment.
    pub fn to_search(&self, frag: &[u8]) -> (r: Url)
        ensures
            r@.path == self@.path,
            r@.base == self@.base,
            r@.scheme == SchemeView::Search,
            r@.frag == frag@,
    {
        Url { loc: self.loc.clone(), scheme: Scheme::Search, frag: slice_to_vec(frag) }
    }

    /// This Url relabelled as a Search container with the given query.
    pub fn into_search(self, frag: &[u8]) -> (r: Url)
        ensures
            r@.path == self@.path,
            r@.base == self@.base,
            r@.scheme == SchemeView::Search,
            r@.frag == frag@,
    {
        Url { loc: self.loc, scheme: Scheme::Search, frag: slice_to_vec(frag) }
    }

    /// Whether the scheme is Archive.
    pub fn is_archive(&self) -> (r: bool)
        ensures
            r == (self@.scheme == SchemeView::Archive),
    {
        match &self.scheme {
            Scheme::Archive => true,
            _ => false,
        }
    }

    /// The location's path, the Url consumed.
    pub fn into_path(self) -> (r: Vec<u8>)
        ensures
            r@ == self@.path,
    {
        self.loc.path
    }
}

} // verus!
