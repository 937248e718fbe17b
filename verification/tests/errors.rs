use zypp_rs::error::PoolError;
use zypp_rs::error::SubRepoError;
use zypp_rs::error::UnknownPackage;
use zypp_rs::error::ZyppError;
use zypp_rs::media::MediaError;
use zypp_rs::repoinfo::Error;
use zypp_rs::tribool::Tribool;

#[test]
fn media_errors_have_messages() {
    assert_eq!(MediaError::FileNotFound.to_string(), "The file was not found");
    assert_eq!(MediaError::NotAFile.to_string(), "The given path is not a file");
    assert_eq!(MediaError::FileExists.to_string(), "The file did exist already");
    assert_eq!(MediaError::InvalidHandle.to_string(), "Invalid media handle");
    assert_eq!(MediaError::InvalidUrl.to_string(), "Failed to parse given URL");
    assert_eq!(MediaError::InvalidPath.to_string(), "Given Path was invalid");
    assert_eq!(
        MediaError::NoDriverFound.to_string(),
        "Could not find a valid driver for the given Mirros"
    );
    assert_eq!(
        MediaError::WorkerBroken("channel closed".to_string()).to_string(),
        "Communication with worker task broke: channel closed"
    );
    assert_eq!(
        MediaError::HttpError { source: "timed out".to_string() }.to_string(),
        "Http Error - timed out"
    );
    assert_eq!(
        MediaError::Internal("poisoned".to_string()).to_string(),
        "Internal error - poisoned"
    );
}

#[test]
fn zypp_errors_name_their_source() {
    assert_eq!(
        ZyppError::from(MediaError::InvalidHandle).to_string(),
        "Media Error - Invalid media handle"
    );
    assert_eq!(
        ZyppError::from(MediaError::InvalidHandle),
        ZyppError::Media { source: MediaError::InvalidHandle }
    );
    let pool = PoolError::from(UnknownPackage::new("zypper".to_string()));
    assert_eq!(pool.to_string(), "Some message - zypper");
    assert_eq!(ZyppError::from(pool.clone()).to_string(), "Pool Error - Some message - zypper");
    assert_eq!(ZyppError::from(pool.clone()), ZyppError::Pool { source: pool });
    let repo = Error::UnknownRepoType("deb".to_string());
    assert_eq!(
        ZyppError::from(repo.clone()).to_string(),
        "Repo Error - The repo type deb is not known"
    );
    assert_eq!(ZyppError::from(repo.clone()), ZyppError::Repo { source: repo });
    assert_eq!(
        ZyppError::IoError { source: "disk full".to_string() }.to_string(),
        "IO Error - disk full"
    );
    assert_eq!(ZyppError::Unknown.to_string(), "unknown error");
}

#[test]
fn small_errors_have_messages() {
    assert_eq!(UnknownPackage::new("x".to_string()).to_string(), "Some message - x");
    assert_eq!(
        SubRepoError::TotallyUselessError.to_string(),
        "Even more nested repo error thingy"
    );
}

#[test]
fn tribool_from_bool_is_definite() {
    assert_eq!(Tribool::from_bool(true), Tribool::True);
    assert_eq!(Tribool::from_bool(false), Tribool::False);
    assert_eq!(Tribool::default(), Tribool::False);
}

#[test]
fn tribool_reads_its_spellings() {
    assert_eq!(Tribool::parse("true"), Some(Tribool::True));
    assert_eq!(Tribool::parse("TRUE"), Some(Tribool::True));
    assert_eq!(Tribool::parse("False"), Some(Tribool::False));
    assert_eq!(Tribool::parse("indeterminate"), Some(Tribool::Indeterminate));
    assert_eq!(Tribool::parse("Unknown"), Some(Tribool::Indeterminate));
    assert_eq!(Tribool::parse("null"), Some(Tribool::Indeterminate));
    assert_eq!(Tribool::parse(""), None);
    assert_eq!(Tribool::parse("yes"), None);
    assert_eq!(Tribool::parse("true "), None);
    assert_eq!(Tribool::parse("tru\u{212a}"), None);
}

#[test]
fn tribool_to_option() {
    assert_eq!(Tribool::True.to_option(), Some(true));
    assert_eq!(Tribool::False.to_option(), Some(false));
    assert_eq!(Tribool::Indeterminate.to_option(), None);
}
