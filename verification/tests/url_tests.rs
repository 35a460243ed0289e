use vurl::lookup::{maybe_exists, must_exists, MetaOutcome};
use vurl::scheme::{Scheme, UrlError};
use vurl::url::Url;

#[test]
fn scheme_parse_archive_prefix() {
    let (s, n) = Scheme::parse(b"archive://a/b").unwrap();
    assert_eq!(s, Scheme::Archive);
    assert_eq!(n, 10);
}

#[test]
fn scheme_parse_sftp_named() {
    let (s, n) = Scheme::parse(b"sftp://box-1/a").unwrap();
    assert_eq!(s, Scheme::Sftp(b"box-1".to_vec()));
    assert_eq!(n, 13);
}

#[test]
fn scheme_parse_sftp_empty_name_fails() {
    assert_eq!(Scheme::parse(b"sftp:///a").unwrap_err(), UrlError::InvalidSchemeName);
}

#[test]
fn scheme_parse_sftp_bad_name_fails() {
    assert_eq!(Scheme::parse(b"sftp://bad!/a").unwrap_err(), UrlError::InvalidSchemeName);
}

#[test]
fn scheme_parse_bare_path_is_regular() {
    let (s, n) = Scheme::parse(b"/a/b").unwrap();
    assert_eq!(s, Scheme::Regular);
    assert_eq!(n, 0);
}

#[test]
fn scheme_parse_regular_prefix() {
    let (s, n) = Scheme::parse(b"regular://x").unwrap();
    assert_eq!(s, Scheme::Regular);
    assert_eq!(n, 10);
}

#[test]
fn scheme_parse_unknown_prefix_fails() {
    match Scheme::parse(b"foo://x").unwrap_err() {
        UrlError::UnrecognizedScheme(input) => assert_eq!(input, b"foo://x".to_vec()),
        other => panic!("unexpected error: {:?}", other),
    }
}

#[test]
fn parse_name_consumes_closing_slash() {
    let (name, n) = Scheme::parse_name(b"box/rest").unwrap();
    assert_eq!(name, b"box".to_vec());
    assert_eq!(n, 4);
    let (name2, n2) = Scheme::parse_name(b"box").unwrap();
    assert_eq!(name2, b"box".to_vec());
    assert_eq!(n2, 3);
}

#[test]
fn cross_scheme_equality() {
    let item = Url::local(b"/a".to_vec()).to_search(b"q").join(b"x");
    assert_eq!(item, Url::local(b"/a/x".to_vec()));
    assert!(item != Url::local(b"/a/x".to_vec()).to_search(b"q"));
}

#[test]
fn sftp_names_distinguish() {
    let a = Url::parse(b"sftp://one/x").unwrap();
    let b = Url::parse(b"sftp://two/x").unwrap();
    let c = Url::parse(b"sftp://one/x").unwrap();
    assert!(a != b);
    assert_eq!(a, c);
}

#[test]
fn hash_eq_coherence_on_samples() {
    let item = Url::local(b"/a".to_vec()).to_search(b"q").join(b"x");
    let plain = Url::local(b"/a/x".to_vec());
    assert_eq!(item, plain);
    assert_eq!(item.hash_u64(), plain.hash_u64());

    let a = Url::parse(b"sftp://one/x").unwrap();
    let c = Url::parse(b"sftp://one/x").unwrap();
    assert_eq!(a.hash_u64(), c.hash_u64());

    let s1 = Url::local(b"/a".to_vec()).to_search(b"q");
    let s2 = Url::local(b"/a".to_vec()).to_search(b"q");
    assert_eq!(s1, s2);
    assert_eq!(s1.hash_u64(), s2.hash_u64());
}

#[test]
fn join_then_parent_returns_location() {
    let u = Url::local(b"/a".to_vec());
    let j = u.join(b"x");
    let p = j.parent_url().unwrap();
    assert_eq!(p, u);
    assert_eq!(p.into_path(), b"/a".to_vec());
}

#[test]
fn join_then_parent_at_root() {
    let u = Url::local(b"/".to_vec());
    let j = u.join(b"x");
    assert_eq!(j.clone().into_path(), b"/x".to_vec());
    assert_eq!(j.parent_url().unwrap().into_path(), b"/".to_vec());
}

#[test]
fn search_item_demotes_to_container() {
    let s = Url::local(b"/a".to_vec()).to_search(b"q");
    let back = s.join(b"b").parent_url().unwrap();
    assert_eq!(back, s);
    assert!(back.is_search());
}

#[test]
fn search_item_parent_below_anchor_stays_item() {
    let s = Url::local(b"/a".to_vec()).to_search(b"q");
    let deep = s.join(b"b").join(b"c");
    let up = deep.parent_url().unwrap();
    assert!(!up.is_search());
    assert_eq!(up, Url::local(b"/a/b".to_vec()));
    let container = up.parent_url().unwrap();
    assert!(container.is_search());
}

#[test]
fn display_regular_never_encodes() {
    let u = Url::local(b"/a b#c".to_vec());
    assert_eq!(u.display_bytes(), b"/a b#c".to_vec());
}

#[test]
fn display_search_encodes_path_hash() {
    let u = Url::local(b"/a#b".to_vec()).to_search(b"q");
    assert_eq!(u.display_bytes(), b"search:///a%23b#q".to_vec());
}

#[test]
fn display_search_item_is_bare_path() {
    let item = Url::local(b"/a".to_vec()).to_search(b"q").join(b"x");
    assert_eq!(item.display_bytes(), b"/a/x".to_vec());
}

#[test]
fn parse_decodes_path_and_fragment() {
    let u = Url::parse(b"search://a%20b#q%20r").unwrap();
    assert!(u.is_search());
    assert_eq!(u.as_path().unwrap(), &b"a b".to_vec());
    assert_eq!(u.frag, b"q r".to_vec());
}

#[test]
fn parse_control_escape_round_trips() {
    let u = Url::parse(b"archive://a%0Ab").unwrap();
    assert!(u.is_archive());
    assert_eq!(u.clone().into_path(), b"a\nb".to_vec());
    assert_eq!(u.display_bytes(), b"archive://a%0Ab".to_vec());
}

#[test]
fn round_trip_regular() {
    let u = Url::local(b"/x/y".to_vec());
    let again = Url::parse(&u.display_bytes()).unwrap();
    assert_eq!(again, u);
}

#[test]
fn round_trip_search_with_fragment() {
    let u = Url::local(b"/x y".to_vec()).to_search(b"que ry");
    let again = Url::parse(&u.display_bytes()).unwrap();
    assert_eq!(again, u);
    assert_eq!(again.frag, u.frag);
}

#[test]
fn round_trip_sftp() {
    let u = Url::parse(b"sftp://box-1/etc/motd").unwrap();
    assert_eq!(u.display_bytes(), b"sftp://box-1/etc/motd".to_vec());
    let again = Url::parse(&u.display_bytes()).unwrap();
    assert_eq!(again, u);
}

#[test]
fn base_of_regular_is_parent_dir() {
    let u = Url::local(b"/a/b".to_vec());
    assert_eq!(u.base(), Url::local(b"/a".to_vec()));
}

#[test]
fn base_of_search_item_is_container() {
    let s = Url::local(b"/a".to_vec()).to_search(b"q");
    let item = s.join(b"x");
    let b = item.base();
    assert!(b.is_search());
    assert_eq!(b, s);
}

#[test]
fn set_name_renames_last_segment() {
    let mut u = Url::local(b"/a/b".to_vec());
    u.set_name(b"c");
    assert_eq!(u.into_path(), b"/a/c".to_vec());
}

#[test]
fn pair_gives_parent_and_urn() {
    let u = Url::local(b"/a/b".to_vec());
    let (parent, urn) = u.pair().unwrap();
    assert_eq!(parent, Url::local(b"/a".to_vec()));
    assert_eq!(urn, b"b".to_vec());
    assert!(Url::local(b"/".to_vec()).pair().is_none());
}

#[test]
fn pair_urn_of_search_item_is_relative() {
    let item = Url::local(b"/a".to_vec()).to_search(b"q").join(b"x").join(b"y");
    let (_, urn) = item.pair().unwrap();
    assert_eq!(urn, b"x/y".to_vec());
}

#[test]
fn rebase_moves_name_under_new_parent() {
    let u = Url::local(b"/a/b".to_vec());
    assert_eq!(u.rebase(b"/z"), Url::local(b"/z/b".to_vec()));
}

#[test]
fn scheme_predicates_and_conversions() {
    let u = Url::parse(b"archive://a/b").unwrap();
    assert!(u.is_archive());
    assert!(!u.is_regular());
    assert!(!u.is_search());
    let r = u.to_regular();
    assert!(r.is_regular());
    assert_eq!(r.frag, Vec::<u8>::new());
    let s = r.clone().into_search(b"q");
    assert!(s.is_search());
    assert_eq!(s.frag, b"q".to_vec());
    let back = s.into_regular();
    assert!(back.is_regular());
    assert_eq!(back.frag, Vec::<u8>::new());
}

#[test]
fn as_path_only_for_regular_and_search() {
    assert!(Url::local(b"/a".to_vec()).as_path().is_some());
    assert!(Url::local(b"/a".to_vec()).to_search(b"q").as_path().is_some());
    assert!(Url::parse(b"archive://a").unwrap().as_path().is_none());
    assert!(Url::parse(b"sftp://b/a").unwrap().as_path().is_none());
}

#[test]
fn archive_parent_decays_to_regular() {
    let u = Url::parse(b"archive://a/b").unwrap();
    let p = u.parent_url().unwrap();
    assert!(p.is_regular());
    assert_eq!(p, Url::local(b"a".to_vec()));
}

#[test]
fn sftp_parent_keeps_scheme() {
    let u = Url::parse(b"sftp://box/a/b").unwrap();
    let p = u.parent_url().unwrap();
    assert_eq!(p, Url::parse(b"sftp://box/a").unwrap());
}

#[test]
fn default_url_is_empty_regular() {
    let u = Url::default();
    assert!(u.is_regular());
    assert_eq!(u.into_path(), Vec::<u8>::new());
}

#[test]
fn existence_from_lookup_outcome() {
    assert!(!must_exists(&MetaOutcome::NotFound));
    assert!(!maybe_exists(&MetaOutcome::NotFound));
    assert!(!must_exists(&MetaOutcome::OtherError));
    assert!(maybe_exists(&MetaOutcome::OtherError));
    assert!(must_exists(&MetaOutcome::Found));
    assert!(maybe_exists(&MetaOutcome::Found));
}

#[test]
fn scheme_display_is_parse_inverse() {
    let round = |s: Scheme| {
        let text = s.display_bytes();
        let (back, n) = Scheme::parse(&text).unwrap();
        assert_eq!(back, s);
        assert_eq!(n, text.len());
    };
    round(Scheme::Regular);
    round(Scheme::Search);
    round(Scheme::Archive);
    round(Scheme::Sftp(b"box-1".to_vec()));
}

#[test]
fn search_item_prefix_has_no_parse() {
    let text = Scheme::SearchItem.display_bytes();
    assert_eq!(text, b"search_item://".to_vec());
    assert!(Scheme::parse(&text).is_err());
}

#[test]
fn empty_input_is_empty_regular() {
    let u = Url::parse(b"").unwrap();
    assert!(u.is_regular());
    assert_eq!(u.display_bytes(), Vec::<u8>::new());
}

#[test]
fn empty_search_round_trips() {
    let u = Url::parse(b"search://").unwrap();
    assert!(u.is_search());
    assert_eq!(u.as_path().unwrap(), &Vec::<u8>::new());
    assert_eq!(u.display_bytes(), b"search://".to_vec());
}

#[test]
fn non_ascii_bytes_are_escaped() {
    let u = Url::local(vec![200u8]).to_search(b"");
    assert_eq!(u.display_bytes(), b"search://%C8".to_vec());
    let again = Url::parse(&u.display_bytes()).unwrap();
    assert_eq!(again, u);
}

#[test]
fn raw_percent_passes_through_unencoded() {
    let u = Url::local(b"/a%zz".to_vec()).to_search(b"");
    assert_eq!(u.display_bytes(), b"search:///a%zz".to_vec());
    assert_eq!(Url::parse(&u.display_bytes()).unwrap(), u);
}
