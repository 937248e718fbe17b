use zypp_rs::repoinfo::Error;
use zypp_rs::repoinfo::ParseRepoFileError;
use zypp_rs::repoinfo::RepoInfo;
use zypp_rs::repoinfo::RepoType;
use zypp_rs::repomanager::RepoManager;
use zypp_rs::repomanager::RepoManagerOptions;
use zypp_rs::tribool::Tribool;

fn prop(key: &str, val: &str) -> (String, Option<String>) {
    (key.to_string(), Some(val.to_string()))
}

#[test]
fn repo_type_reads_its_names_in_any_case() {
    for name in ["rpm-md", "rpm", "rpmmd", "repomd", "yum", "up2date", "RPM-MD", "Yum"] {
        assert_eq!(RepoType::from_str(name), Ok(RepoType::RpmMd));
    }
    for name in ["yast2", "yast", "susetags", "YaST2"] {
        assert_eq!(RepoType::from_str(name), Ok(RepoType::Yast2));
    }
    assert_eq!(RepoType::from_str("plaindir"), Ok(RepoType::RpmPlainDir));
    assert_eq!(RepoType::from_str("PlainDir"), Ok(RepoType::RpmPlainDir));
    assert_eq!(RepoType::from_str("none"), Ok(RepoType::NoType));
    assert_eq!(RepoType::from_str("NONE"), Ok(RepoType::NoType));
}

#[test]
fn repo_type_rejects_other_names() {
    assert_eq!(RepoType::from_str("Deb"), Err(Error::UnknownRepoType("Deb".to_string())));
    assert_eq!(RepoType::from_str(""), Err(Error::UnknownRepoType(String::new())));
    assert_eq!(RepoType::from_str(" rpm"), Err(Error::UnknownRepoType(" rpm".to_string())));
}

#[test]
fn repo_type_from_lowercase_is_exact() {
    assert_eq!(RepoType::from_lowercase("rpm-md"), Some(RepoType::RpmMd));
    assert_eq!(RepoType::from_lowercase("RPM-MD"), None);
    assert_eq!(RepoType::from_lowercase("NONE"), None);
    assert_eq!(RepoType::from_lowercase("none"), Some(RepoType::NoType));
    assert_eq!(RepoType::from_lowercase("plaindir"), Some(RepoType::RpmPlainDir));
    assert_eq!(RepoType::from_lowercase("susetags"), Some(RepoType::Yast2));
    assert_eq!(RepoType::from_lowercase("plain"), None);
}

#[test]
fn repo_type_names() {
    assert_eq!(RepoType::NoType.to_string(), "none");
    assert_eq!(RepoType::RpmMd.to_string(), "rpm-md");
    assert_eq!(RepoType::Yast2.to_string(), "yast2");
    assert_eq!(RepoType::RpmPlainDir.to_string(), "plaindir");
    assert_eq!(RepoType::default(), RepoType::NoType);
}

#[test]
fn repo_errors_have_messages() {
    assert_eq!(
        Error::UnknownRepoType("deb".to_string()).to_string(),
        "The repo type deb is not known"
    );
    let parser = ParseRepoFileError::ParserError("line 3".to_string());
    assert_eq!(parser.to_string(), "Failed to parse file with error: line 3.");
    let invalid =
        ParseRepoFileError::InvalidValue { key: "baseurl".to_string(), value: "x y".to_string() };
    assert_eq!(invalid.to_string(), "Value x y for key baseurl is not valid");
    assert_eq!(Error::from(invalid.clone()).to_string(), invalid.to_string());
    assert_eq!(Error::from(parser.clone()), Error::ParseRepoFileError(parser));
}

#[test]
fn default_repo_info_is_blank() {
    let info = RepoInfo::default();
    assert_eq!(info.repo_alias, "");
    assert_eq!(info.repo_name, "");
    assert_eq!(info.repo_type, RepoType::NoType);
    assert_eq!(info.raw_gpg_check, Tribool::False);
    assert!(info.base_urls.is_empty());
    assert_eq!(info.metadata_path(), "");
    assert_eq!(info.packages_path(), "");
}

#[test]
fn section_fills_the_description() {
    let props = vec![
        prop("name", "Main Repository"),
        prop("Type", "RPM-MD"),
        prop("raw_gpg_check", "Unknown"),
        prop("baseurl", "http://download.example.org/oss\nhttps://mirror.example.org/oss/"),
        prop("enabled", "1"),
        ("autorefresh".to_string(), None),
    ];
    let info = RepoInfo::from_section("repo-oss", &props).unwrap();
    assert_eq!(info.repo_alias, "repo-oss");
    assert_eq!(info.repo_name, "Main Repository");
    assert_eq!(info.repo_type, RepoType::RpmMd);
    assert_eq!(info.raw_gpg_check, Tribool::Indeterminate);
    let urls: Vec<&str> = info.base_urls.iter().map(|u| u.as_str()).collect();
    assert_eq!(urls, vec!["http://download.example.org/oss", "https://mirror.example.org/oss/"]);
}

#[test]
fn section_uses_the_first_line_of_name_and_type() {
    let props = vec![prop("name", "first\nsecond"), prop("type", "yast\nrpm-md")];
    let info = RepoInfo::from_section("r", &props).unwrap();
    assert_eq!(info.repo_name, "first");
    assert_eq!(info.repo_type, RepoType::Yast2);
}

#[test]
fn section_without_keys_is_blank_but_for_the_alias() {
    let info = RepoInfo::from_section("alias", &Vec::new()).unwrap();
    assert_eq!(info.repo_alias, "alias");
    assert_eq!(info.repo_name, "");
    assert_eq!(info.raw_gpg_check, Tribool::False);
    assert!(info.base_urls.is_empty());
}

#[test]
fn later_keys_win_and_urls_add_up() {
    let props = vec![
        prop("name", "one"),
        prop("baseurl", "http://a/"),
        prop("NAME", "two"),
        prop("BaseUrl", "http://b/"),
    ];
    let info = RepoInfo::from_section("r", &props).unwrap();
    assert_eq!(info.repo_name, "two");
    let urls: Vec<&str> = info.base_urls.iter().map(|u| u.as_str()).collect();
    assert_eq!(urls, vec!["http://a/", "http://b/"]);
}

#[test]
fn section_with_unknown_type_fails() {
    let props = vec![prop("name", "x"), prop("type", "Deb\nrpm"), prop("baseurl", "not a url")];
    assert_eq!(
        RepoInfo::from_section("r", &props).err(),
        Some(Error::UnknownRepoType("Deb".to_string()))
    );
}

#[test]
fn section_with_bad_gpg_check_names_the_first_line() {
    let props = vec![prop("Raw_Gpg_Check", "maybe\ntrue")];
    assert_eq!(
        RepoInfo::from_section("r", &props).err(),
        Some(Error::ParseRepoFileError(ParseRepoFileError::InvalidValue {
            key: "Raw_Gpg_Check".to_string(),
            value: "maybe".to_string(),
        }))
    );
    let props = vec![prop("raw_gpg_check", "true\nfalse")];
    assert_eq!(
        RepoInfo::from_section("r", &props).err(),
        Some(Error::ParseRepoFileError(ParseRepoFileError::InvalidValue {
            key: "raw_gpg_check".to_string(),
            value: "true".to_string(),
        }))
    );
    let props = vec![prop("raw_gpg_check", "TRUE")];
    assert_eq!(RepoInfo::from_section("r", &props).unwrap().raw_gpg_check, Tribool::True);
}

#[test]
fn section_with_bad_url_names_the_whole_value() {
    let props = vec![prop("baseurl", "http://a/\nnot a url\nhttp://b/")];
    assert_eq!(
        RepoInfo::from_section("r", &props).err(),
        Some(Error::ParseRepoFileError(ParseRepoFileError::InvalidValue {
            key: "baseurl".to_string(),
            value: "http://a/\nnot a url\nhttp://b/".to_string(),
        }))
    );
    let props = vec![prop("baseurl", "http://a/\n")];
    assert!(RepoInfo::from_section("r", &props).is_err());
}

#[test]
fn first_bad_key_decides_the_error() {
    let props = vec![prop("baseurl", "nope"), prop("type", "deb")];
    assert!(matches!(
        RepoInfo::from_section("r", &props),
        Err(Error::ParseRepoFileError(ParseRepoFileError::InvalidValue { .. }))
    ));
    let props = vec![prop("type", "deb"), prop("baseurl", "nope")];
    assert!(matches!(RepoInfo::from_section("r", &props), Err(Error::UnknownRepoType(_))));
}

#[test]
fn sections_without_name_are_skipped() {
    let sections = vec![
        ("".to_string(), vec![prop("type", "deb")]),
        ("a".to_string(), vec![prop("name", "A")]),
        ("b".to_string(), vec![prop("name", "B")]),
    ];
    let infos = RepoInfo::from_sections(&sections).unwrap();
    assert_eq!(infos.len(), 2);
    assert_eq!(infos[0].repo_alias, "a");
    assert_eq!(infos[0].repo_name, "A");
    assert_eq!(infos[1].repo_alias, "b");
    assert_eq!(infos[1].repo_name, "B");
}

#[test]
fn first_bad_section_decides_the_error() {
    let sections = vec![
        ("a".to_string(), vec![prop("name", "A")]),
        ("b".to_string(), vec![prop("type", "deb")]),
        ("c".to_string(), vec![prop("baseurl", "nope")]),
    ];
    assert_eq!(
        RepoInfo::from_sections(&sections).err(),
        Some(Error::UnknownRepoType("deb".to_string()))
    );
    assert_eq!(RepoInfo::from_sections(&Vec::new()).unwrap().len(), 0);
}

#[test]
fn repo_file_text_is_read() {
    let text = "[repo-oss]\nname=Main Repository\ntype=rpm-md\nenabled=1\nbaseurl=http://download.example.org/oss\n    https://mirror.example.org/oss/\nraw_gpg_check=false\n";
    let infos = RepoInfo::read_from_text(text.to_string()).unwrap();
    assert_eq!(infos.len(), 1);
    let info = &infos[0];
    assert_eq!(info.repo_alias, "repo-oss");
    assert_eq!(info.repo_name, "Main Repository");
    assert_eq!(info.repo_type, RepoType::RpmMd);
    assert_eq!(info.raw_gpg_check, Tribool::False);
    let urls: Vec<&str> = info.base_urls.iter().map(|u| u.as_str()).collect();
    assert_eq!(urls, vec!["http://download.example.org/oss", "https://mirror.example.org/oss/"]);
}

#[test]
fn repo_file_with_two_sections_gives_two_descriptions() {
    let text = "[one]\nname=1\n[two]\nname=2\ntype=yast2\n";
    let mut infos = RepoInfo::read_from_text(text.to_string()).unwrap();
    infos.sort_by(|a, b| a.repo_alias.cmp(&b.repo_alias));
    assert_eq!(infos.len(), 2);
    assert_eq!((infos[0].repo_alias.as_str(), infos[0].repo_name.as_str()), ("one", "1"));
    assert_eq!((infos[1].repo_alias.as_str(), infos[1].repo_name.as_str()), ("two", "2"));
    assert_eq!(infos[1].repo_type, RepoType::Yast2);
}

#[test]
fn broken_repo_file_is_a_parser_error() {
    let r = RepoInfo::read_from_text("[broken\nname=x\n".to_string());
    assert!(matches!(
        r,
        Err(Error::ParseRepoFileError(ParseRepoFileError::ParserError(_)))
    ));
    let r = RepoInfo::read_from_text("[a]\n=value\n".to_string());
    assert!(matches!(
        r,
        Err(Error::ParseRepoFileError(ParseRepoFileError::ParserError(_)))
    ));
}

#[test]
fn repo_file_with_bad_value_fails() {
    let r = RepoInfo::read_from_text("[a]\ntype=deb\n".to_string());
    assert_eq!(r.err(), Some(Error::UnknownRepoType("deb".to_string())));
    assert_eq!(RepoInfo::read_from_text(String::new()).unwrap().len(), 0);
}

#[test]
fn probe_cache_follows_the_files() {
    assert_eq!(RepoInfo::probe_cache(false, true, true, true), RepoType::RpmMd);
    assert_eq!(RepoInfo::probe_cache(false, false, true, true), RepoType::Yast2);
    assert_eq!(RepoInfo::probe_cache(false, false, false, true), RepoType::RpmPlainDir);
    assert_eq!(RepoInfo::probe_cache(false, false, false, false), RepoType::NoType);
    assert_eq!(RepoInfo::probe_cache(true, true, true, true), RepoType::NoType);
}

#[test]
fn repo_info_paths_can_be_set() {
    let mut info = RepoInfo::default();
    info.set_metadata_path("/var/cache/zypp/raw/oss");
    info.set_packages_path("/var/cache/zypp/packages/oss");
    assert_eq!(info.metadata_path(), "/var/cache/zypp/raw/oss");
    assert_eq!(info.packages_path(), "/var/cache/zypp/packages/oss");
    info.set_gpg_check(Tribool::Indeterminate);
    assert_eq!(info.raw_gpg_check, Tribool::Indeterminate);
    assert_eq!(info.repo_alias, "");
}

#[test]
fn options_lie_below_the_system_root() {
    let o = RepoManagerOptions::new("/");
    assert_eq!(o.repo_cache_path, "/var/cache/zypp");
    assert_eq!(o.repo_raw_cache_path, "/var/cache/zypp/raw");
    assert_eq!(o.repo_solv_cache_path, "/solv");
    assert_eq!(o.repo_packages_cache_path, "/packages");
    assert_eq!(o.known_repos_path, "/etc/zypp/repos.d");
    assert_eq!(o.known_services_path, "/etc/zypp/services.d");
    assert_eq!(o.plugins_path, "/usr/lib/zypp/plugins");
    assert!(!o.probe);
    assert_eq!(o.services_target_distro, "");
}

#[test]
fn options_below_another_root() {
    let o = RepoManagerOptions::new("/mnt/target");
    assert_eq!(o.repo_cache_path, "/mnt/target/var/cache/zypp");
    assert_eq!(o.repo_raw_cache_path, "/mnt/target/var/cache/zypp/raw");
    assert_eq!(o.known_repos_path, "/mnt/target/etc/zypp/repos.d");
    let o = RepoManagerOptions::new("");
    assert_eq!(o.repo_solv_cache_path, "solv");
    assert_eq!(o.known_services_path, "etc/zypp/services.d");
}

#[test]
fn repo_manager_switches_the_gpg_check_on() {
    let a = RepoInfo::from_section("a", &vec![prop("name", "A"), prop("raw_gpg_check", "false")])
        .unwrap();
    let b = RepoInfo::from_section("b", &vec![prop("raw_gpg_check", "null")]).unwrap();
    let m = RepoManager::new(RepoManagerOptions::new("/"), vec![a, b]);
    assert_eq!(m.repositories.len(), 2);
    assert_eq!(m.repositories[0].repo_alias, "a");
    assert_eq!(m.repositories[0].repo_name, "A");
    assert_eq!(m.repositories[0].raw_gpg_check, Tribool::True);
    assert_eq!(m.repositories[1].repo_alias, "b");
    assert_eq!(m.repositories[1].raw_gpg_check, Tribool::True);
    assert_eq!(m.options().known_repos_path, "/etc/zypp/repos.d");
    let empty = RepoManager::new(RepoManagerOptions::new("/"), Vec::new());
    assert!(empty.repositories.is_empty());
}

#[test]
fn base_urls_are_kept_as_the_parser_writes_them() {
    let props = vec![prop("baseurl", "HTTP://EXAMPLE.org\nhttps://Mirror.Example.org/a/../b")];
    let info = RepoInfo::from_section("r", &props).unwrap();
    let urls: Vec<&str> = info.base_urls.iter().map(|u| u.as_str()).collect();
    assert_eq!(urls, vec!["http://example.org/", "https://mirror.example.org/b"]);
}

#[test]
fn repo_type_names_read_back() {
    let all = [RepoType::NoType, RepoType::RpmMd, RepoType::Yast2, RepoType::RpmPlainDir];
    for (i, t) in all.iter().enumerate() {
        assert_eq!(RepoType::from_str(&t.to_string()), Ok(*t));
        assert_eq!(RepoType::from_lowercase(&t.to_string()), Some(*t));
        for (j, u) in all.iter().enumerate() {
            assert_eq!(t.to_string() == u.to_string(), i == j);
        }
    }
}

#[test]
fn repo_info_getters_give_the_fields() {
    let props = vec![
        prop("name", "Main"),
        prop("type", "yast2"),
        prop("raw_gpg_check", "true"),
        prop("baseurl", "http://a/\nhttp://b/"),
    ];
    let info = RepoInfo::from_section("oss", &props).unwrap();
    assert_eq!(info.repo_alias(), "oss");
    assert_eq!(info.repo_name(), "Main");
    assert_eq!(info.repo_type(), RepoType::Yast2);
    assert_eq!(info.raw_gpg_check(), Tribool::True);
    let urls: Vec<&str> = info.base_urls().iter().map(|u| u.as_str()).collect();
    assert_eq!(urls, vec!["http://a/", "http://b/"]);
}

#[test]
fn known_repositories_are_those_of_the_readable_files() {
    let a = RepoInfo::from_section("a", &Vec::new()).unwrap();
    let b = RepoInfo::from_section("b", &Vec::new()).unwrap();
    let c = RepoInfo::from_section("c", &Vec::new()).unwrap();
    let results = vec![
        Ok(vec![a]),
        Err(Error::UnknownRepoType("deb".to_string())),
        Ok(Vec::new()),
        Ok(vec![b, c]),
        Err(Error::ParseRepoFileError(ParseRepoFileError::ParserError("x".to_string()))),
    ];
    let known = RepoManager::collect_known(results);
    let aliases: Vec<&str> = known.iter().map(|i| i.repo_alias.as_str()).collect();
    assert_eq!(aliases, vec!["a", "b", "c"]);
    assert!(RepoManager::collect_known(Vec::new()).is_empty());
    assert!(RepoManager::collect_known(vec![Err(Error::UnknownRepoType(String::new()))])
        .is_empty());

    let m = RepoManager::new(RepoManagerOptions::new("/"), known);
    let aliases: Vec<&str> = m.repositories().iter().map(|i| i.repo_alias.as_str()).collect();
    assert_eq!(aliases, vec!["a", "b", "c"]);
}

#[test]
fn short_text_fits_the_parser() {
    assert!(RepoInfo::fits_parser(""));
    assert!(RepoInfo::fits_parser("[a]\nname=x\n"));
    assert_eq!(zypp_rs::repoinfo::MAX_REPO_TEXT, 0x3fff_ffff);
}

#[test]
fn text_that_is_too_long_is_not_parsed() {
    let text = "\n".repeat(zypp_rs::repoinfo::MAX_REPO_TEXT + 1);
    assert!(!RepoInfo::fits_parser(&text));
    assert_eq!(
        RepoInfo::read_from_text(text).err(),
        Some(Error::ParseRepoFileError(ParseRepoFileError::ParserError(
            "text too long".to_string()
        )))
    );
}
