//! The repositories that a system knows, and where it keeps what.

use vstd::prelude::*;
use crate::paths::join_path;
use crate::paths::path_join;
use crate::repoinfo::infos_view;
use crate::repoinfo::Error;
use crate::repoinfo::RepoInfo;
use crate::repoinfo::RepoInfoView;
use crate::tribool::Tribool;

verus! {

/// Where the repository manager keeps its files, below a system root.
#[derive(Debug)]
pub struct RepoManagerOptions {
    pub repo_cache_path: String,
    pub repo_raw_cache_path: String,
    pub repo_solv_cache_path: String,
    pub repo_packages_cache_path: String,
    pub known_repos_path: String,
    pub known_services_path: String,
    pub plugins_path: String,
    pub probe: bool,
    /// The distribution that repository index services are refreshed for.
    /// Repositories of another one are skipped. Empty: the target's own.
    pub services_target_distro: String,
}

/// The mathematical value of [`RepoManagerOptions`].
pub struct RepoManagerOptionsView {
    pub repo_cache_path: Seq<char>,
    pub repo_raw_cache_path: Seq<char>,
    pub repo_solv_cache_path: Seq<char>,
    pub repo_packages_cache_path: Seq<char>,
    pub known_repos_path: Seq<char>,
    pub known_services_path: Seq<char>,
    pub plugins_path: Seq<char>,
    pub probe: bool,
    pub services_target_distro: Seq<char>,
}

impl View for RepoManagerOptions {
    type V = RepoManagerOptionsView;

    open spec fn view(&self) -> RepoManagerOptionsView {
        RepoManagerOptionsView {
            repo_cache_path: self.repo_cache_path@,
            repo_raw_cache_path: self.repo_raw_cache_path@,
            repo_solv_cache_path: self.repo_solv_cache_path@,
            repo_packages_cache_path: self.repo_packages_cache_path@,
            known_repos_path: self.known_repos_path@,
            known_services_path: self.known_services_path@,
            plugins_path: self.plugins_path@,
            probe: self.probe,
            services_target_distro: self.services_target_distro@,
        }
    }
}

/// The places below the system root `sys_root`: caches below
/// `var/cache/zypp`, known repositories and services below `etc/zypp`,
/// plugins below `usr/lib/zypp/plugins`. Nothing is probed, and no
/// distribution is named.
pub open spec fn default_options(sys_root: Seq<char>) -> RepoManagerOptionsView {
    let cache = path_join(sys_root, "var/cache/zypp"@);
    let config = path_join(sys_root, "etc/zypp"@);
    RepoManagerOptionsView {
        repo_cache_path: cache,
        repo_raw_cache_path: path_join(cache, "raw"@),
        repo_solv_cache_path: path_join(sys_root, "solv"@),
        repo_packages_cache_path: path_join(sys_root, "packages"@),
        known_repos_path: path_join(config, "repos.d"@),
        known_services_path: path_join(config, "services.d"@),
        plugins_path: path_join(sys_root, "usr/lib/zypp/plugins"@),
        probe: false,
        services_target_distro: Seq::empty(),
    }
}

impl RepoManagerOptions {
    /// The options for the system root `sys_root`.
    pub fn new(sys_root: &str) -> (options: RepoManagerOptions)
        ensures
            options@ == default_options(sys_root@),
    {
        let repo_cache_path = join_path(sys_root, "var/cache/zypp");
        let config_path = join_path(sys_root, "etc/zypp");
        RepoManagerOptions {
            repo_raw_cache_path: join_path(repo_cache_path.as_str(), "raw"),
            repo_solv_cache_path: join_path(sys_root, "solv"),
            repo_packages_cache_path: join_path(sys_root, "packages"),
            known_repos_path: join_path(config_path.as_str(), "repos.d"),
            known_services_path: join_path(config_path.as_str(), "services.d"),
            plugins_path: join_path(sys_root, "usr/lib/zypp/plugins"),
            probe: false,
            services_target_distro: String::new(),
            repo_cache_path: repo_cache_path,
        }
    }
}

/// The repositories that a system knows.
#[derive(Debug)]
pub struct RepoManager {
    options: RepoManagerOptions,
    pub repositories: Vec<RepoInfo>,
}

/// The descriptions that the first `n` files gave, in the order of the
/// files; a file that could not be read gave none.
pub open spec fn readable(results: Seq<Result<Vec<RepoInfo>, Error>>, n: nat) -> Seq<RepoInfo>
    decreases n,
{
    if n == 0 {
        Seq::empty()
    } else {
        readable(results, (n - 1) as nat) + (match results[n - 1] {
            Ok(infos) => infos@,
            Err(_) => Seq::empty(),
        })
    }
}

/// A description with the signature check switched on.
pub open spec fn checked(info: RepoInfoView) -> RepoInfoView {
    RepoInfoView { raw_gpg_check: Tribool::True, ..info }
}

impl RepoManager {
    /// The options that the manager was made with.
    pub closed spec fn options_view(&self) -> RepoManagerOptionsView {
        self.options@
    }

    /// The repositories that the manager knows.
    pub closed spec fn repositories_view(&self) -> Seq<RepoInfoView> {
        infos_view(self.repositories@)
    }

    /// The manager of the repositories `known`, which were read from the
    /// files below `options.known_repos_path`: it keeps them in their
    /// order, each with the signature check switched on.
    pub fn new(options: RepoManagerOptions, known: Vec<RepoInfo>) -> (m: RepoManager)
        ensures
            m.options_view() == options@,
            m.repositories_view() == infos_view(known@).map_values(
                |info: RepoInfoView| checked(info),
            ),
    {
        let mut repositories = known;
        let mut i: usize = 0;
        while i < repositories.len()
            invariant
                i <= repositories@.len(),
                repositories@.len() == known@.len(),
                forall|j: int| 0 <= j < i ==> (#[trigger] repositories@[j])@ == checked(known@[j]@),
                forall|j: int| i <= j < known@.len() ==> #[trigger] repositories@[j] == known@[j],
            decreases repositories@.len() - i,
        {
            let info = &mut repositories[i];
            info.set_gpg_check(Tribool::True);
            i = i + 1;
        }
        let m = RepoManager { options, repositories };
        assert(m.repositories_view() =~= infos_view(known@).map_values(
            |info: RepoInfoView| checked(info),
        ));
        m
    }

    /// The repositories that the manager knows.
    pub fn repositories(&self) -> (known: &Vec<RepoInfo>)
        ensures
            infos_view(known@) == self.repositories_view(),
    {
        &self.repositories
    }

    /// What reading the files of known repositories gave, file by file,
    /// as one list: the descriptions of every file that could be read, in
    /// the order of the files. A file that could not be read adds nothing.
    pub fn collect_known(results: Vec<Result<Vec<RepoInfo>, Error>>) -> (known: Vec<RepoInfo>)
        ensures
            known@ == readable(results@, results@.len()),
    {
        let mut results = results;
        let ghost all = results@;
        let mut known: Vec<RepoInfo> = Vec::new();
        while results.len() > 0
            invariant
                results@.len() <= all.len(),
                results@ == all.subrange(all.len() - results@.len(), all.len() as int),
                known@ == readable(all, (all.len() - results@.len()) as nat),
            decreases results@.len(),
        {
            let ghost at = all.len() - results@.len();
            let next = results.remove(0);
            assert(next == all[at]);
            assert(results@ =~= all.subrange(all.len() - results@.len(), all.len() as int));
            match next {
                Ok(mut infos) => {
                    known.append(&mut infos);
                },
                Err(_) => {},
            }
        }
        known
    }

    /// The options that the manager was made with.
    pub fn options(&self) -> (o: &RepoManagerOptions)
        ensures
            o@ == self.options_view(),
    {
        &self.options
    }
}

} // verus!
