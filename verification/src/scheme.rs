//! The backend tag of a Url and the parsing of its textual prefix.

use crate::scan::{eq_bytes, find_seq, first_match, lemma_first_match_from};
use vstd::prelude::*;
use vstd::slice::{slice_subrange, slice_to_vec};

verus! {

/// Mathematical image of a [`Scheme`].
pub ghost enum SchemeView {
    Regular,
    Search,
    SearchItem,
    Archive,
    Sftp(Seq<u8>),
}

/// Mathematical image of a [`UrlError`].
pub ghost enum ErrView {
    UnrecognizedScheme(Seq<u8>),
    InvalidSchemeName,
}

/// Why a wire form was rejected.
#[derive(Clone, Debug, PartialEq, Eq)]
pub enum UrlError {
    /// The input began with a `<name>://` prefix naming no known scheme;
    /// the offending input is attached.
    UnrecognizedScheme(Vec<u8>),
    /// The remote-connection name was empty or held a byte other than
    /// ASCII alphanumerics and dashes.
    InvalidSchemeName,
}

impl View for UrlError {
    type V = ErrView;

    open spec fn view(&self) -> ErrView {
        match self {
            UrlError::UnrecognizedScheme(s) => ErrView::UnrecognizedScheme(s@),
            UrlError::InvalidSchemeName => ErrView::InvalidSchemeName,
        }
    }
}

/// Backend tag: which kind of resource a Url addresses.
#[derive(Debug, PartialEq, Eq, Hash)]
pub enum Scheme {
    /// A plain local filesystem entry.
    Regular,
    /// The root container of a set of search results.
    Search,
    /// A match inside a Search container, read relative to a recorded base.
    SearchItem,
    /// A flattened location inside a virtually opened archive.
    Archive,
    /// An entry reachable over the named remote connection.
    Sftp(Vec<u8>),
}

impl View for Scheme {
    type V = SchemeView;

    open spec fn view(&self) -> SchemeView {
        match self {
            Scheme::Regular => SchemeView::Regular,
            Scheme::Search => SchemeView::Search,
            Scheme::SearchItem => SchemeView::SearchItem,
            Scheme::Archive => SchemeView::Archive,
            Scheme::Sftp(n) => SchemeView::Sftp(n@),
        }
    }
}

impl Default for Scheme {
    /// The default scheme is Regular.
    fn default() -> (r: Scheme)
        ensures
            r@ == SchemeView::Regular,
    {
        Scheme::Regular
    }
}

/// The bytes of `regular`.
pub open spec fn proto_regular() -> Seq<u8> {
    seq![114u8, 101u8, 103u8, 117u8, 108u8, 97u8, 114u8]
}

/// The bytes of `search`.
pub open spec fn proto_search() -> Seq<u8> {
    seq![115u8, 101u8, 97u8, 114u8, 99u8, 104u8]
}

/// The bytes of `search_item`.
pub open spec fn proto_search_item() -> Seq<u8> {
    seq![115u8, 101u8, 97u8, 114u8, 99u8, 104u8, 95u8, 105u8, 116u8, 101u8, 109u8]
}

/// The bytes of `archive`.
pub open spec fn proto_archive() -> Seq<u8> {
    seq![97u8, 114u8, 99u8, 104u8, 105u8, 118u8, 101u8]
}

/// The bytes of `sftp`.
pub open spec fn proto_sftp() -> Seq<u8> {
    seq![115u8, 102u8, 116u8, 112u8]
}

/// The bytes of the `://` separator.
pub open spec fn sep3() -> Seq<u8> {
    seq![58u8, 47u8, 47u8]
}

/// Bytes a remote-connection name may hold: ASCII alphanumerics and `-`.
pub open spec fn is_name_byte(b: u8) -> bool {
    (97u8 <= b && b <= 122u8) || (65u8 <= b && b <= 90u8) || (48u8 <= b && b <= 57u8) || b == 45u8
}

/// A valid remote-connection name: non-empty, alphanumerics and dashes.
pub open spec fn valid_name(n: Seq<u8>) -> bool {
    n.len() > 0 && forall|i: int| 0 <= i < n.len() ==> is_name_byte(#[trigger] n[i])
}

/// The longest separator-free prefix of a byte sequence.
pub open spec fn prefix_until_sep(s: Seq<u8>) -> Seq<u8>
    decreases s.len(),
{
    if s.len() == 0 {
        Seq::empty()
    } else if s[0] == 47 {
        Seq::empty()
    } else {
        seq![s[0]] + prefix_until_sep(s.skip(1))
    }
}

/// `prefix_until_sep` is the prefix up to the first separator or the end.
pub proof fn lemma_prefix_until_sep_is(s: Seq<u8>, m: int)
    requires
        0 <= m <= s.len(),
        forall|k: int| 0 <= k < m ==> s[k] != 47,
        m < s.len() ==> s[m] == 47,
    ensures
        prefix_until_sep(s) == s.take(m),
    decreases s.len(),
{
    if s.len() == 0 {
        assert(s.take(m) =~= Seq::empty());
    } else if s[0] == 47 {
        assert(m == 0);
        assert(s.take(0) =~= Seq::<u8>::empty());
    } else {
        assert(m >= 1);
        let t = s.skip(1);
        assert forall|k: int| 0 <= k < m - 1 implies t[k] != 47 by {
            assert(t[k] == s[k + 1]);
        }
        assert(m - 1 < t.len() ==> t[m - 1] == 47);
        lemma_prefix_until_sep_is(t, m - 1);
        assert(seq![s[0]] + t.take(m - 1) =~= s.take(m));
    }
}

/// The separator-free prefix is never longer than the input.
pub proof fn lemma_prefix_until_sep_len(s: Seq<u8>)
    ensures
        prefix_until_sep(s).len() <= s.len(),
    decreases s.len(),
{
    if s.len() == 0 {
    } else if s[0] == 47 {
    } else {
        lemma_prefix_until_sep_len(s.skip(1));
    }
}

/// The scheme prefix never consumes more than the input holds.
pub proof fn lemma_scheme_consumed_bound(s: Seq<u8>)
    ensures
        spec_scheme_parse(s) matches Ok(p) ==> 0 <= p.1 <= s.len(),
{
    match first_match(s, sep3()) {
        None => {},
        Some(i) => {
            lemma_first_match_from(s, sep3(), 0);
            lemma_prefix_until_sep_len(s.skip(i + 3));
        },
    }
}

/// What the name parser consumed and returned, or why it refused.
pub open spec fn spec_parse_name(s: Seq<u8>) -> Result<(Seq<u8>, int), ErrView> {
    let name = prefix_until_sep(s);
    if !valid_name(name) {
        Err(ErrView::InvalidSchemeName)
    } else {
        Ok(
            (
                name,
                name.len() + if name.len() < s.len() {
                    1int
                } else {
                    0int
                },
            ),
        )
    }
}

/// What scheme a wire form begins with and how many bytes the prefix took,
/// or why it was refused.  Input without a `://` separator is Regular and
/// consumes nothing.
pub open spec fn spec_scheme_parse(s: Seq<u8>) -> Result<(SchemeView, int), ErrView> {
    match first_match(s, sep3()) {
        None => Ok((SchemeView::Regular, 0)),
        Some(i) => {
            let proto = s.take(i);
            let rest = s.skip(i + 3);
            if proto == proto_regular() {
                Ok((SchemeView::Regular, i + 3))
            } else if proto == proto_search() {
                Ok((SchemeView::Search, i + 3))
            } else if proto == proto_archive() {
                Ok((SchemeView::Archive, i + 3))
            } else if proto == proto_sftp() {
                match spec_parse_name(rest) {
                    Ok(p) => Ok((SchemeView::Sftp(p.0), i + 3 + p.1)),
                    Err(e) => Err(e),
                }
            } else {
                Err(ErrView::UnrecognizedScheme(s))
            }
        },
    }
}

impl Scheme {
    /// Parses the connection name of a remote prefix: the bytes up to the
    /// first `/` or the end, which the consumed count includes.
    pub fn parse_name(bytes: &[u8]) -> (r: Result<(Vec<u8>, usize), UrlError>)
        ensures
            (match r {
                Ok(p) => spec_parse_name(bytes@) == Ok::<_, ErrView>((p.0@, p.1 as int)) && p.1
                    <= bytes@.len(),
                Err(e) => spec_parse_name(bytes@) == Err::<(Seq<u8>, int), _>(e@),
            }),
    {
        let mut n: usize = 0;
        while n < bytes.len() && bytes[n] != 47
            invariant
                0 <= n <= bytes@.len(),
                forall|k: int| 0 <= k < n ==> bytes@[k] != 47,
            decreases bytes@.len() - n,
        {
            n += 1;
        }
        proof {
            lemma_prefix_until_sep_is(bytes@, n as int);
        }
        let ghost name = prefix_until_sep(bytes@);
        if n == 0 {
            return Err(UrlError::InvalidSchemeName);
        }
        let mut k: usize = 0;
        while k < n
            invariant
                0 <= k <= n <= bytes@.len(),
                name == bytes@.take(n as int),
                name == prefix_until_sep(bytes@),
                forall|m: int| 0 <= m < k ==> is_name_byte(#[trigger] bytes@[m]),
            decreases n - k,
        {
            let b = bytes[k];
            if !((97u8 <= b && b <= 122u8) || (65u8 <= b && b <= 90u8) || (48u8 <= b && b <= 57u8)
                || b == 45u8) {
                assert(name[k as int] == bytes@[k as int]);
                assert(!valid_name(name));
                return Err(UrlError::InvalidSchemeName);
            }
            k += 1;
        }
        assert forall|i: int| 0 <= i < name.len() implies is_name_byte(#[trigger] name[i]) by {
            assert(name[i] == bytes@[i]);
        }
        let v = slice_to_vec(slice_subrange(bytes, 0, n));
        proof {
            assert(bytes@.take(n as int) =~= bytes@.subrange(0, n as int));
        }
        let skip = if n < bytes.len() {
            n + 1
        } else {
            n
        };
        Ok((v, skip))
    }

    /// Parses the scheme prefix of a wire form and how many bytes it took.
    pub fn parse(bytes: &[u8]) -> (r: Result<(Scheme, usize), UrlError>)
        ensures
            (match r {
                Ok(p) => spec_scheme_parse(bytes@) == Ok::<_, ErrView>((p.0@, p.1 as int)),
                Err(e) => spec_scheme_parse(bytes@) == Err::<(SchemeView, int), _>(e@),
            }),
    {
        let pat: Vec<u8> = vec![58u8, 47u8, 47u8];
        proof {
            assert(pat@ =~= sep3());
        }
        match find_seq(bytes, pat.as_slice()) {
            None => Ok((Scheme::Regular, 0)),
            Some(i) => {
                proof {
                    lemma_first_match_from(bytes@, sep3(), 0);
                }
                let proto = slice_subrange(bytes, 0, i);
                assert(proto@ =~= bytes@.take(i as int));
                let lit_regular: Vec<u8> = vec![114u8, 101u8, 103u8, 117u8, 108u8, 97u8, 114u8];
                let lit_search: Vec<u8> = vec![115u8, 101u8, 97u8, 114u8, 99u8, 104u8];
                let lit_archive: Vec<u8> = vec![97u8, 114u8, 99u8, 104u8, 105u8, 118u8, 101u8];
                let lit_sftp: Vec<u8> = vec![115u8, 102u8, 116u8, 112u8];
                proof {
                    assert(lit_regular@ =~= proto_regular());
                    assert(lit_search@ =~= proto_search());
                    assert(lit_archive@ =~= proto_archive());
                    assert(lit_sftp@ =~= proto_sftp());
                }
                if eq_bytes(proto, lit_regular.as_slice()) {
                    Ok((Scheme::Regular, i + 3))
                } else if eq_bytes(proto, lit_search.as_slice()) {
                    Ok((Scheme::Search, i + 3))
                } else if eq_bytes(proto, lit_archive.as_slice()) {
                    Ok((Scheme::Archive, i + 3))
                } else if eq_bytes(proto, lit_sftp.as_slice()) {
                    let rest = slice_subrange(bytes, i + 3, bytes.len());
                    assert(rest@ =~= bytes@.skip(i + 3));
                    match Scheme::parse_name(rest) {
                        Ok((name, skip)) => Ok((Scheme::Sftp(name), i + 3 + skip)),
                        Err(e) => Err(e),
                    }
                } else {
                    Err(UrlError::UnrecognizedScheme(slice_to_vec(bytes)))
                }
            },
        }
    }

    /// The textual prefix of the scheme: `<name>://`, with the connection
    /// name and one closing `/` appended for a remote scheme.
    pub fn display_bytes(&self) -> (r: Vec<u8>)
        ensures
            r@ == scheme_prefix(self@),
    {
        let mut v: Vec<u8> = match self {
            Scheme::Regular => vec![114u8, 101u8, 103u8, 117u8, 108u8, 97u8, 114u8],
            Scheme::Search => vec![115u8, 101u8, 97u8, 114u8, 99u8, 104u8],
            Scheme::SearchItem => vec![
                115u8,
                101u8,
                97u8,
                114u8,
                99u8,
                104u8,
                95u8,
                105u8,
                116u8,
                101u8,
                109u8,
            ],
            Scheme::Archive => vec![97u8, 114u8, 99u8, 104u8, 105u8, 118u8, 101u8],
            Scheme::Sftp(_) => vec![115u8, 102u8, 116u8, 112u8],
        };
        v.push(58u8);
        v.push(47u8);
        v.push(47u8);
        if let Scheme::Sftp(name) = self {
            let mut nv = slice_to_vec(name.as_slice());
            v.append(&mut nv);
            v.push(47u8);
        }
        proof {
            assert(v@ =~= scheme_prefix(self@));
        }
        v
    }
}

/// The textual prefix a scheme prints before the encoded location.
pub open spec fn scheme_prefix(s: SchemeView) -> Seq<u8> {
    match s {
        SchemeView::Regular => proto_regular() + sep3(),
        SchemeView::Search => proto_search() + sep3(),
        SchemeView::SearchItem => proto_search_item() + sep3(),
        SchemeView::Archive => proto_archive() + sep3(),
        SchemeView::Sftp(n) => proto_sftp() + sep3() + n + seq![47u8],
    }
}

} // verus!
