use url::Url;
use zypp_rs::media::drivers::http::Attached;
use zypp_rs::media::drivers::http::MediaHttpDriver;
use zypp_rs::media::spec::MediaSpec;
use zypp_rs::media::MediaError;

fn spec(label: &str, medianr: u16, verify: Option<&str>) -> MediaSpec {
    MediaSpec {
        label: label.to_string(),
        medianr,
        verify_data_path: verify.map(|p| p.to_string()),
    }
}

fn urls(list: &[&str]) -> Vec<Url> {
    list.iter().map(|u| Url::parse(u).unwrap()).collect()
}

#[test]
fn new_driver_has_no_attachment() {
    let d = MediaHttpDriver::new();
    assert_eq!(d.last_attach_id(), 1);
    assert!(!d.is_attached(1));
    assert!(!d.is_attached(2));
    assert_eq!(d.use_count(2), None);
    assert_eq!(d.attach_dir(2), None);
}

#[test]
fn driver_serves_http_and_https() {
    let d = MediaHttpDriver::new();
    assert_eq!(d.schemes(), vec!["http".to_string(), "https".to_string()]);
}

#[test]
fn first_attach_gets_the_next_id() {
    let mut d = MediaHttpDriver::new();
    let mirrors = urls(&["http://m1/"]);
    let s = spec("L", 0, None);
    assert!(d.can_attach(&mirrors, &s));
    assert_eq!(d.lookup(&mirrors, &s), None);
    let a = d.attach(mirrors, s, "/tmp/zypp-http1".to_string());
    assert_eq!(a, Attached { id: 2, fresh: true });
    assert_eq!(d.last_attach_id(), 2);
    assert!(d.is_attached(2));
    assert_eq!(d.use_count(2), Some(1));
    assert_eq!(d.attach_dir(2), Some("/tmp/zypp-http1".to_string()));
}

#[test]
fn attach_dedup_on_indeterminate() {
    let mut d = MediaHttpDriver::new();
    let first = d.attach(
        urls(&["http://m1/", "http://m2/"]),
        spec("L", 0, None),
        "/tmp/zypp-http1".to_string(),
    );
    let second = d.attach(
        urls(&["http://m1/", "http://m3/"]),
        spec("L", 5, None),
        "/tmp/zypp-http2".to_string(),
    );
    assert!(first.fresh);
    assert!(!second.fresh);
    assert_eq!(first.id, second.id);
    assert_eq!(d.use_count(first.id), Some(2));
    assert_eq!(d.attach_dir(first.id), Some("/tmp/zypp-http1".to_string()));
    assert_eq!(d.last_attach_id(), first.id);
}

#[test]
fn attach_dedup_on_same_medium() {
    let mut d = MediaHttpDriver::new();
    let first = d.attach(
        urls(&["http://m1/"]),
        spec("L", 1, Some("/media.1/media")),
        "/tmp/zypp-http1".to_string(),
    );
    let second = d.attach(
        urls(&["http://other/"]),
        spec("other label", 1, Some("/media.1/media")),
        "/tmp/zypp-http2".to_string(),
    );
    assert_eq!(first.id, second.id);
    assert!(!second.fresh);
    assert_eq!(d.use_count(first.id), Some(2));
}

#[test]
fn attach_of_other_media_gets_other_ids() {
    let mut d = MediaHttpDriver::new();
    let a = d.attach(urls(&["http://m1/"]), spec("L", 0, None), "/tmp/a".to_string());
    let b = d.attach(urls(&["http://m2/"]), spec("L", 0, None), "/tmp/b".to_string());
    let c = d.attach(
        urls(&["http://m1/"]),
        spec("L", 1, Some("/media.1/media")),
        "/tmp/c".to_string(),
    );
    let e = d.attach(
        urls(&["http://m1/"]),
        spec("L", 2, Some("/media.1/media")),
        "/tmp/e".to_string(),
    );
    assert_eq!((a.id, b.id, c.id, e.id), (2, 3, 4, 5));
    assert!(a.fresh && b.fresh && c.fresh && e.fresh);
    assert_eq!(d.attach_dir(a.id), Some("/tmp/a".to_string()));
    assert_eq!(d.attach_dir(b.id), Some("/tmp/b".to_string()));
    assert_eq!(d.attach_dir(c.id), Some("/tmp/c".to_string()));
    assert_eq!(d.attach_dir(e.id), Some("/tmp/e".to_string()));
}

#[test]
fn attach_without_mirrors_matches_only_an_attachment_without_mirrors() {
    let mut d = MediaHttpDriver::new();
    let a = d.attach(urls(&["http://m1/"]), spec("L", 0, None), "/tmp/a".to_string());
    let b = d.attach(Vec::new(), spec("L", 0, None), "/tmp/b".to_string());
    let c = d.attach(Vec::new(), spec("M", 3, None), "/tmp/c".to_string());
    assert!(a.id != b.id);
    assert!(b.fresh);
    assert_eq!(b.id, c.id);
    assert_eq!(d.use_count(b.id), Some(2));
}

#[test]
fn lookup_finds_the_serving_attachment() {
    let mut d = MediaHttpDriver::new();
    let a = d.attach(urls(&["http://m1/"]), spec("L", 0, None), "/tmp/a".to_string());
    assert_eq!(d.lookup(&urls(&["http://m1/", "http://x/"]), &spec("Z", 9, None)), Some(a.id));
    assert_eq!(d.lookup(&urls(&["http://x/", "http://m1/"]), &spec("Z", 9, None)), None);
    assert_eq!(d.lookup(&urls(&["http://m1/"]), &spec("L", 0, Some("/v"))), None);
    assert_eq!(d.use_count(a.id), Some(1));
}

#[test]
fn detach_on_unknown_id_is_an_invalid_handle() {
    let mut d = MediaHttpDriver::new();
    assert_eq!(d.detach(7), Err(MediaError::InvalidHandle));
    let a = d.attach(urls(&["http://m1/"]), spec("L", 0, None), "/tmp/a".to_string());
    assert_eq!(d.detach(a.id + 1), Err(MediaError::InvalidHandle));
    assert_eq!(d.use_count(a.id), Some(1));
}

#[test]
fn detach_of_the_last_use_evicts() {
    let mut d = MediaHttpDriver::new();
    let a = d.attach(urls(&["http://m1/"]), spec("L", 0, None), "/tmp/a".to_string());
    let again = d.attach(urls(&["http://m1/"]), spec("L", 0, None), "/tmp/unused".to_string());
    assert_eq!(again.id, a.id);
    assert_eq!(d.detach(a.id), Ok(None));
    assert_eq!(d.use_count(a.id), Some(1));
    assert_eq!(d.detach(a.id), Ok(Some("/tmp/a".to_string())));
    assert!(!d.is_attached(a.id));
    assert_eq!(d.detach(a.id), Err(MediaError::InvalidHandle));
}

#[test]
fn ids_are_never_reused() {
    let mut d = MediaHttpDriver::new();
    let a = d.attach(urls(&["http://m1/"]), spec("L", 0, None), "/tmp/a".to_string());
    assert_eq!(d.detach(a.id), Ok(Some("/tmp/a".to_string())));
    let b = d.attach(urls(&["http://m1/"]), spec("L", 0, None), "/tmp/b".to_string());
    assert!(b.fresh);
    assert_eq!(b.id, a.id + 1);
    assert!(!d.is_attached(a.id));
    assert_eq!(d.attach_dir(b.id), Some("/tmp/b".to_string()));
}

#[test]
fn attach_again_takes_one_use_that_one_detach_gives_back() {
    let mut d = MediaHttpDriver::new();
    let a = d.attach(
        urls(&["http://m1/"]),
        spec("L", 1, Some("/media.1/media")),
        "/tmp/a".to_string(),
    );
    let other = d.attach(urls(&["http://m9/"]), spec("L", 0, None), "/tmp/o".to_string());
    for n in 1..4 {
        assert_eq!(d.use_count(a.id), Some(n));
        let again = d.attach(
            urls(&["http://elsewhere/"]),
            spec("M", 1, Some("/media.1/media")),
            "/tmp/unused".to_string(),
        );
        assert_eq!(again, Attached { id: a.id, fresh: false });
        assert_eq!(d.attach_dir(a.id), Some("/tmp/a".to_string()));
        assert_eq!(d.use_count(other.id), Some(1));
        assert_eq!(d.last_attach_id(), other.id);
    }
    for n in (1..4).rev() {
        assert_eq!(d.detach(a.id), Ok(None));
        assert_eq!(d.use_count(a.id), Some(n));
    }
    assert_eq!(d.detach(a.id), Ok(Some("/tmp/a".to_string())));
    assert!(!d.is_attached(a.id));
    assert!(d.is_attached(other.id));
}
