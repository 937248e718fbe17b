use url::Url;
use zypp_rs::media::drivers::http::MediaHttpDriver;
use zypp_rs::media::drivers::provide::status_is_success;
use zypp_rs::media::drivers::provide::target_dir;
use zypp_rs::media::drivers::provide::target_file;
use zypp_rs::media::drivers::provide::Phase;
use zypp_rs::media::drivers::provide::ProvideAction;
use zypp_rs::media::drivers::provide::ProvideCall;
use zypp_rs::media::drivers::provide::ProvideEvent;
use zypp_rs::media::spec::FileSpec;
use zypp_rs::media::spec::MediaSpec;
use zypp_rs::media::MediaError;
use zypp_rs::paths::has_file_name;
use zypp_rs::paths::has_parent;

fn media(medianr: u16) -> MediaSpec {
    MediaSpec { label: "L".to_string(), medianr, verify_data_path: None }
}

fn file_spec() -> FileSpec {
    FileSpec {
        check_exists_only: false,
        optional: false,
        download_size: 0,
        open_size: 0,
        header_size: 0,
        deltafile: String::new(),
    }
}

fn urls(list: &[&str]) -> Vec<Url> {
    list.iter().map(|u| Url::parse(u).unwrap()).collect()
}

fn attached(mirrors: &[&str]) -> (MediaHttpDriver, u32) {
    let mut d = MediaHttpDriver::new();
    let a = d.attach(urls(mirrors), media(0), "/scratch".to_string());
    (d, a.id)
}

fn done(action: ProvideAction) -> (Result<String, MediaError>, bool, Option<String>) {
    match action {
        ProvideAction::Done { result, notify, evicted } => (result, notify, evicted),
        other => panic!("the request is not over: {:?}", other),
    }
}

fn expect_request(action: ProvideAction, url: &str, dir: &str) {
    match action {
        ProvideAction::Request { url: u, dir: d } => {
            assert_eq!(u.as_str(), url);
            assert_eq!(d, dir);
        }
        other => panic!("no request: {:?}", other),
    }
}

fn expect_probe(action: ProvideAction, file: &str) {
    match action {
        ProvideAction::Probe { file: f } => assert_eq!(f, file),
        other => panic!("no probe: {:?}", other),
    }
}

fn expect_store(action: ProvideAction, file: &str) {
    match action {
        ProvideAction::Store { file: f } => assert_eq!(f, file),
        other => panic!("no store: {:?}", other),
    }
}

fn expect_prepare(action: ProvideAction, dir: &str) {
    match action {
        ProvideAction::PrepareDir { dir: d } => assert_eq!(d, dir),
        other => panic!("no directory to prepare: {:?}", other),
    }
}

/// Begins a request and takes it to the point where the file was not found.
fn begin(d: &mut MediaHttpDriver, id: u32, path: &str) -> (ProvideCall, ProvideAction) {
    let (mut call, action) = d.provide(id, path.to_string(), file_spec());
    assert!(matches!(action, ProvideAction::PrepareDir { .. }));
    let action = d.advance(&mut call, ProvideEvent::DirReady { is_dir: true });
    assert!(matches!(action, ProvideAction::Probe { .. }));
    let action = d.advance(&mut call, ProvideEvent::Probed { exists: false });
    (call, action)
}

#[test]
fn target_dir_strips_the_leading_separator() {
    assert_eq!(target_dir("/scratch", "/a/b.xml"), "/scratch/a");
    assert_eq!(target_file("/scratch", "/a/b.xml"), Some("/scratch/a/b.xml".to_string()));
    assert_eq!(target_dir("/scratch", "a/b/c.txt"), "/scratch/a/b");
    assert_eq!(target_file("/scratch", "a/b/c.txt"), Some("/scratch/a/b/c.txt".to_string()));
}

#[test]
fn target_dir_of_a_path_without_parent_is_the_scratch_dir() {
    assert_eq!(target_dir("/scratch", "/"), "/scratch");
    assert_eq!(target_dir("/scratch", ""), "/scratch");
}

#[test]
fn target_file_needs_a_file_name() {
    assert_eq!(target_file("/scratch", "/"), None);
    assert_eq!(target_file("/scratch", ""), None);
    assert_eq!(target_file("/scratch", "/a/.."), None);
    assert_eq!(target_file("/scratch", "/x"), Some("/scratch/x".to_string()));
}

#[test]
fn status_success_is_2xx() {
    assert!(!status_is_success(199));
    assert!(status_is_success(200));
    assert!(status_is_success(204));
    assert!(status_is_success(299));
    assert!(!status_is_success(300));
    assert!(!status_is_success(404));
    assert!(!status_is_success(500));
}

#[test]
fn single_file_single_mirror() {
    let (mut d, id) = attached(&["http://m1/"]);
    let (mut call, action) = d.provide(id, "/a/b.txt".to_string(), file_spec());
    expect_prepare(action, "/scratch/a");
    assert_eq!(call.phase(), Phase::PreparingDir);
    assert_eq!(call.attach_id(), id);
    assert_eq!(d.use_count(id), Some(2));

    let action = d.advance(&mut call, ProvideEvent::DirReady { is_dir: true });
    expect_probe(action, "/scratch/a/b.txt");
    assert_eq!(call.phase(), Phase::Probing);

    let action = d.advance(&mut call, ProvideEvent::Probed { exists: false });
    expect_request(action, "http://m1/a/b.txt", "/scratch/a");
    assert_eq!(call.phase(), Phase::Requesting);
    assert!(call.is_requester());

    let action = d.advance(&mut call, ProvideEvent::Responded { status: 200 });
    expect_store(action, "/scratch/a/b.txt");
    assert_eq!(call.phase(), Phase::Storing);

    let action = d.advance(&mut call, ProvideEvent::Stored);
    assert_eq!(done(action), (Ok("/scratch/a/b.txt".to_string()), true, None));
    assert!(call.is_finished());
    assert!(!call.is_requester());
    assert_eq!(d.use_count(id), Some(1));
}

#[test]
fn mirror_fallback() {
    let (mut d, id) = attached(&["http://bad/", "http://good/"]);
    let (mut call, action) = begin(&mut d, id, "/a/b.txt");
    expect_request(action, "http://bad/a/b.txt", "/scratch/a");
    let action = d.advance(&mut call, ProvideEvent::Responded { status: 500 });
    expect_request(action, "http://good/a/b.txt", "/scratch/a");
    let action = d.advance(&mut call, ProvideEvent::Responded { status: 200 });
    expect_store(action, "/scratch/a/b.txt");
    let action = d.advance(&mut call, ProvideEvent::Stored);
    assert_eq!(done(action), (Ok("/scratch/a/b.txt".to_string()), true, None));
}

#[test]
fn fallback_after_a_transport_error_while_storing() {
    let (mut d, id) = attached(&["http://m1/", "http://m2/"]);
    let (mut call, action) = begin(&mut d, id, "/x");
    expect_request(action, "http://m1/x", "/scratch/");
    let action = d.advance(&mut call, ProvideEvent::Responded { status: 200 });
    expect_store(action, "/scratch/x");
    let broken = MediaError::HttpError { source: "connection reset".to_string() };
    let action = d.advance(&mut call, ProvideEvent::Failed { error: broken.clone() });
    expect_request(action, "http://m2/x", "/scratch/");
    let action = d.advance(&mut call, ProvideEvent::Failed { error: broken.clone() });
    assert_eq!(done(action), (Err(broken), true, None));
}

#[test]
fn all_mirrors_404() {
    let (mut d, id) = attached(&["http://a/", "http://b/"]);
    let (mut call, action) = begin(&mut d, id, "/x");
    expect_request(action, "http://a/x", "/scratch/");
    let action = d.advance(&mut call, ProvideEvent::Responded { status: 404 });
    expect_request(action, "http://b/x", "/scratch/");
    let action = d.advance(&mut call, ProvideEvent::Responded { status: 404 });
    assert_eq!(done(action), (Err(MediaError::FileNotFound), true, None));
    assert!(call.is_finished());
    assert_eq!(d.use_count(id), Some(1));
}

#[test]
fn last_error_wins() {
    let (mut d, id) = attached(&["http://a/", "http://b/"]);
    let (mut call, action) = begin(&mut d, id, "/x");
    expect_request(action, "http://a/x", "/scratch/");
    let action = d.advance(
        &mut call,
        ProvideEvent::Failed { error: MediaError::HttpError { source: "timeout".to_string() } },
    );
    expect_request(action, "http://b/x", "/scratch/");
    let action = d.advance(&mut call, ProvideEvent::Responded { status: 404 });
    assert_eq!(done(action).0, Err(MediaError::FileNotFound));
}

#[test]
fn no_mirror_at_all_is_file_not_found() {
    let (mut d, id) = attached(&[]);
    let (call, action) = begin(&mut d, id, "/x");
    assert_eq!(done(action), (Err(MediaError::FileNotFound), true, None));
    assert!(call.is_finished());
}

#[test]
fn mirror_that_cannot_be_joined_is_an_invalid_path() {
    let (mut d, id) = attached(&["mailto:someone@example.com", "http://good/"]);
    let (mut call, action) = begin(&mut d, id, "/x");
    expect_request(action, "http://good/x", "/scratch/");
    let action = d.advance(&mut call, ProvideEvent::Responded { status: 404 });
    assert_eq!(done(action).0, Err(MediaError::FileNotFound));

    let (mut d, id) = attached(&["http://good/", "mailto:someone@example.com"]);
    let (mut call, action) = begin(&mut d, id, "/x");
    expect_request(action, "http://good/x", "/scratch/");
    let action = d.advance(&mut call, ProvideEvent::Responded { status: 404 });
    assert_eq!(done(action).0, Err(MediaError::InvalidPath));

    let (mut d, id) = attached(&["mailto:someone@example.com"]);
    let (_, action) = begin(&mut d, id, "/x");
    assert_eq!(done(action), (Err(MediaError::InvalidPath), true, None));
}

#[test]
fn request_dedup() {
    let (mut d, id) = attached(&["http://m1/"]);
    let (mut requester, action) = begin(&mut d, id, "/x");
    expect_request(action, "http://m1/x", "/scratch/");
    let mut gets = 1;

    let mut waiters = Vec::new();
    for _ in 0..9 {
        let (call, action) = begin(&mut d, id, "/x");
        match action {
            ProvideAction::Wait => {}
            ProvideAction::Request { .. } => gets += 1,
            other => panic!("neither waiting nor asking: {:?}", other),
        }
        assert_eq!(call.phase(), Phase::Waiting);
        assert!(!call.is_requester());
        waiters.push(call);
    }
    assert_eq!(gets, 1);
    assert_eq!(d.use_count(id), Some(11));

    let action = d.advance(&mut requester, ProvideEvent::Responded { status: 200 });
    expect_store(action, "/scratch/x");
    let action = d.advance(&mut requester, ProvideEvent::Stored);
    let (result, notify, evicted) = done(action);
    assert_eq!(result, Ok("/scratch/x".to_string()));
    assert!(notify);
    assert_eq!(evicted, None);

    for mut call in waiters {
        let action = d.advance(&mut call, ProvideEvent::Woken);
        expect_probe(action, "/scratch/x");
        let action = d.advance(&mut call, ProvideEvent::Probed { exists: true });
        assert_eq!(done(action), (Ok("/scratch/x".to_string()), false, None));
    }
    assert_eq!(gets, 1);
    assert_eq!(d.use_count(id), Some(1));
}

#[test]
fn requests_for_the_same_path_spelled_differently_are_one_download() {
    let (mut d, id) = attached(&["http://m1/"]);
    let (_requester, action) = begin(&mut d, id, "/a/x");
    assert!(matches!(action, ProvideAction::Request { .. }));
    let (_, action) = begin(&mut d, id, "/a//x");
    assert!(matches!(action, ProvideAction::Wait));
    let (_, action) = begin(&mut d, id, "/a/./x/");
    assert!(matches!(action, ProvideAction::Wait));
}

#[test]
fn other_paths_download_side_by_side() {
    let (mut d, id) = attached(&["http://m1/"]);
    let (_a, action) = begin(&mut d, id, "/x");
    expect_request(action, "http://m1/x", "/scratch/");
    let (_b, action) = begin(&mut d, id, "/y");
    expect_request(action, "http://m1/y", "/scratch/");
}

#[test]
fn same_path_on_another_attachment_downloads_too() {
    let mut d = MediaHttpDriver::new();
    let a = d.attach(urls(&["http://m1/"]), media(0), "/scratch1".to_string());
    let b = d.attach(urls(&["http://m2/"]), media(0), "/scratch2".to_string());
    let (_ca, action) = begin(&mut d, a.id, "/x");
    expect_request(action, "http://m1/x", "/scratch1/");
    let (_cb, action) = begin(&mut d, b.id, "/x");
    expect_request(action, "http://m2/x", "/scratch2/");
}

#[test]
fn waiter_takes_over_after_a_failure() {
    let (mut d, id) = attached(&["http://m1/"]);
    let (mut requester, _) = begin(&mut d, id, "/x");
    let (mut waiter, action) = begin(&mut d, id, "/x");
    assert!(matches!(action, ProvideAction::Wait));

    let action = d.advance(&mut requester, ProvideEvent::Responded { status: 503 });
    assert_eq!(done(action), (Err(MediaError::FileNotFound), true, None));

    let action = d.advance(&mut waiter, ProvideEvent::Woken);
    expect_probe(action, "/scratch/x");
    let action = d.advance(&mut waiter, ProvideEvent::Probed { exists: false });
    expect_request(action, "http://m1/x", "/scratch/");
    assert!(waiter.is_requester());
}

#[test]
fn second_provide_returns_the_same_path_without_a_request() {
    let (mut d, id) = attached(&["http://m1/"]);
    let (mut first, _) = begin(&mut d, id, "/a/b.txt");
    d.advance(&mut first, ProvideEvent::Responded { status: 200 });
    let (first_result, _, _) = done(d.advance(&mut first, ProvideEvent::Stored));

    let (mut second, action) = d.provide(id, "/a/b.txt".to_string(), file_spec());
    expect_prepare(action, "/scratch/a");
    let action = d.advance(&mut second, ProvideEvent::DirReady { is_dir: true });
    expect_probe(action, "/scratch/a/b.txt");
    let action = d.advance(&mut second, ProvideEvent::Probed { exists: true });
    let (second_result, notify, evicted) = done(action);
    assert_eq!(first_result, Ok("/scratch/a/b.txt".to_string()));
    assert_eq!(second_result, first_result);
    assert!(!notify);
    assert_eq!(evicted, None);
}

#[test]
fn detach_with_live_fetch() {
    let (mut d, id) = attached(&["http://m1/"]);
    let (mut call, action) = begin(&mut d, id, "/x");
    expect_request(action, "http://m1/x", "/scratch/");
    assert_eq!(d.use_count(id), Some(2));

    assert_eq!(d.detach(id), Ok(None));
    assert!(d.is_attached(id));
    assert_eq!(d.use_count(id), Some(1));

    let action = d.advance(&mut call, ProvideEvent::Responded { status: 200 });
    expect_store(action, "/scratch/x");
    assert!(d.is_attached(id));
    let action = d.advance(&mut call, ProvideEvent::Stored);
    assert_eq!(
        done(action),
        (Ok("/scratch/x".to_string()), true, Some("/scratch".to_string()))
    );
    assert!(!d.is_attached(id));
}

#[test]
fn provide_on_unknown_id_is_an_invalid_handle() {
    let mut d = MediaHttpDriver::new();
    let (call, action) = d.provide(9, "/x".to_string(), file_spec());
    assert_eq!(done(action), (Err(MediaError::InvalidHandle), false, None));
    assert!(call.is_finished());
}

#[test]
fn attachment_gone_while_waiting_is_an_invalid_handle() {
    let (mut d, id) = attached(&["http://m1/"]);
    let (mut call, action) = d.provide(id, "/x".to_string(), file_spec());
    expect_prepare(action, "/scratch/");
    assert_eq!(d.detach(id), Ok(None));
    assert_eq!(d.detach(id), Ok(Some("/scratch".to_string())));
    let action = d.advance(&mut call, ProvideEvent::DirReady { is_dir: true });
    expect_probe(action, "/scratch/x");
    let action = d.advance(&mut call, ProvideEvent::Probed { exists: false });
    assert_eq!(done(action), (Err(MediaError::InvalidHandle), false, None));
}

#[test]
fn target_that_is_no_directory_is_file_exists() {
    let (mut d, id) = attached(&["http://m1/"]);
    let (mut call, _) = d.provide(id, "/a/b.txt".to_string(), file_spec());
    let action = d.advance(&mut call, ProvideEvent::DirReady { is_dir: false });
    assert_eq!(done(action), (Err(MediaError::FileExists), false, None));
    assert_eq!(d.use_count(id), Some(1));
}

#[test]
fn path_without_file_name_is_not_a_file() {
    for path in ["/", "", "/a/.."] {
        let (mut d, id) = attached(&["http://m1/"]);
        let (mut call, _) = d.provide(id, path.to_string(), file_spec());
        let action = d.advance(&mut call, ProvideEvent::DirReady { is_dir: true });
        assert_eq!(done(action), (Err(MediaError::NotAFile), false, None));
        assert_eq!(d.use_count(id), Some(1));
    }
}

#[test]
fn directory_check_comes_before_the_file_name() {
    let (mut d, id) = attached(&["http://m1/"]);
    let (mut call, _) = d.provide(id, "/".to_string(), file_spec());
    let action = d.advance(&mut call, ProvideEvent::DirReady { is_dir: false });
    assert_eq!(done(action).0, Err(MediaError::FileExists));
}

#[test]
fn failure_on_disk_ends_the_request() {
    let (mut d, id) = attached(&["http://m1/"]);
    let (mut call, _) = d.provide(id, "/x".to_string(), file_spec());
    let error = MediaError::Internal("permission denied".to_string());
    let action = d.advance(&mut call, ProvideEvent::Failed { error: error.clone() });
    assert_eq!(done(action), (Err(error.clone()), false, None));

    let (mut call, _) = d.provide(id, "/x".to_string(), file_spec());
    d.advance(&mut call, ProvideEvent::DirReady { is_dir: true });
    let action = d.advance(&mut call, ProvideEvent::Failed { error: error.clone() });
    assert_eq!(done(action), (Err(error), false, None));
    assert_eq!(d.use_count(id), Some(1));
}

#[test]
fn unexpected_event_ends_the_request() {
    let (mut d, id) = attached(&["http://m1/"]);
    let (mut call, _) = d.provide(id, "/x".to_string(), file_spec());
    let action = d.advance(&mut call, ProvideEvent::Stored);
    assert_eq!(
        done(action),
        (Err(MediaError::Internal("unexpected event".to_string())), false, None)
    );
    assert!(call.is_finished());
    assert_eq!(d.use_count(id), Some(1));

    let action = d.advance(&mut call, ProvideEvent::Woken);
    assert_eq!(
        done(action),
        (Err(MediaError::Internal("unexpected event".to_string())), false, None)
    );
    assert_eq!(d.use_count(id), Some(1));

    let (mut requester, _) = begin(&mut d, id, "/x");
    let action = d.advance(&mut requester, ProvideEvent::Woken);
    assert_eq!(
        done(action),
        (Err(MediaError::Internal("unexpected event".to_string())), true, None)
    );
    let (_, action) = begin(&mut d, id, "/x");
    assert!(matches!(action, ProvideAction::Request { .. }));
}

#[test]
fn request_url_replaces_the_mirrors_path() {
    let (mut d, id) = attached(&["http://m1/repo/oss/"]);
    let (_, action) = begin(&mut d, id, "/a/b.txt");
    expect_request(action, "http://m1/a/b.txt", "/scratch/a");
    let (_, action) = begin(&mut d, id, "c/d.txt");
    expect_request(action, "http://m1/repo/oss/c/d.txt", "/scratch/c");
}

#[test]
fn abandoned_request_gives_up_what_it_holds() {
    let (mut d, id) = attached(&["http://m1/", "http://m2/"]);
    let (mut requester, action) = begin(&mut d, id, "/x");
    assert!(matches!(action, ProvideAction::Request { .. }));
    let (mut waiter, action) = begin(&mut d, id, "/x");
    assert!(matches!(action, ProvideAction::Wait));
    assert_eq!(d.use_count(id), Some(3));

    let action = d.advance(&mut requester, ProvideEvent::Abandoned);
    let (result, notify, evicted) = done(action);
    assert!(result.is_err());
    assert!(notify);
    assert_eq!(evicted, None);
    assert!(requester.is_finished());
    assert_eq!(d.use_count(id), Some(2));

    let action = d.advance(&mut waiter, ProvideEvent::Abandoned);
    assert_eq!(done(action).1, false);
    assert_eq!(d.use_count(id), Some(1));

    let (_, action) = begin(&mut d, id, "/x");
    assert!(matches!(action, ProvideAction::Request { .. }));
}

#[test]
fn bare_file_name_goes_to_the_scratch_dir() {
    let dir = target_dir("/scratch", "b.txt");
    assert_eq!(dir, "/scratch/");
    assert!(std::path::Path::new(&dir) == std::path::Path::new("/scratch"));
    let file = target_file("/scratch", "b.txt").unwrap();
    assert_eq!(file, "/scratch/b.txt");
    assert_eq!(std::path::Path::new(&file).parent(), Some(std::path::Path::new("/scratch")));

    let (mut d, id) = attached(&["http://m1/repo/"]);
    let (mut call, action) = d.provide(id, "b.txt".to_string(), file_spec());
    expect_prepare(action, "/scratch/");
    let action = d.advance(&mut call, ProvideEvent::DirReady { is_dir: true });
    expect_probe(action, "/scratch/b.txt");
    let action = d.advance(&mut call, ProvideEvent::Probed { exists: false });
    expect_request(action, "http://m1/repo/b.txt", "/scratch/");
}

#[test]
fn paths_tell_whether_they_have_a_parent_and_a_file_name() {
    assert!(has_parent("/a/b.txt"));
    assert!(has_parent("b.txt"));
    assert!(!has_parent("/"));
    assert!(!has_parent(""));
    assert!(has_file_name("/a/b.txt"));
    assert!(has_file_name("b.txt"));
    assert!(!has_file_name("/"));
    assert!(!has_file_name(""));
    assert!(!has_file_name("/a/.."));
    for path in ["/", ""] {
        assert!(!has_parent(path));
        assert_eq!(target_dir("/scratch", path), "/scratch");
    }
}
