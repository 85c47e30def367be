//! Decisions of the source-control side: what a repository listing resolves
//! to, which pushed files matter, which forks can be reused, and which
//! repositories take part in the batch update.  The network calls that feed
//! these decisions live outside the library.

use vstd::prelude::*;

use crate::github_config::{parse_github_repo_info_json, spec_parse_repo_info};
use crate::github_repo_info::{GithubModInfo, GithubRepoInfo, contains_string, clone_opt_string,
    spec_owner_of, spec_repo_of};
use crate::json::json_of;
use crate::text::{chars_of, find_char, lemma_find_char, spec_find_char, str_eq, string_of,
    subvec};

verus! {

/// The account under which forks and pull requests are made.
pub fn github_user_name() -> (r: &'static str)
    ensures
        r@ == "factorio-mods-helper"@,
{
    "factorio-mods-helper"
}

/// The branch to which translation updates are pushed on a fork.
pub fn github_branch_name() -> (r: &'static str)
    ensures
        r@ == "crowdin-fml"@,
{
    "crowdin-fml"
}

/// The name of the repository configuration file.
pub fn github_config_file_name() -> (r: &'static str)
    ensures
        r@ == "factorio-mods-localization.json"@,
{
    "factorio-mods-localization.json"
}

/// Why a repository yields no usable description.
#[derive(Debug, PartialEq, Eq, Structural, Clone, Copy)]
pub enum GetRepoInfoError {
    InvalidConfig,
    LocaleDirectoryMissing,
    LocaleEnDirectoryMissingOrEmpty,
}

/// What a repository resolves to, given its root listing, the configuration
/// file's contents when the listing holds one, and the `locale/en` listing
/// when it was consulted: a configuration file decides alone; without one,
/// `locale` must exist and `locale/en` must be listable and non-empty.
pub open spec fn spec_repo_info_from_listing(
    full: Seq<char>,
    root_items: Seq<Seq<char>>,
    config_json: Option<Seq<char>>,
    locale_en_items: Option<Seq<Seq<char>>>,
) -> Result<crate::github_repo_info::RepoInfoView, GetRepoInfoError> {
    if root_items.contains("factorio-mods-localization.json"@) {
        match config_json {
            Option::Some(j) => match spec_parse_repo_info(full, json_of(j)) {
                Option::Some(ri) => Result::Ok(ri),
                Option::None => Result::Err(GetRepoInfoError::InvalidConfig),
            },
            Option::None => Result::Err(GetRepoInfoError::InvalidConfig),
        }
    } else if !root_items.contains("locale"@) {
        Result::Err(GetRepoInfoError::LocaleDirectoryMissing)
    } else {
        match locale_en_items {
            Option::Some(items) => if items.len() > 0 {
                Result::Ok(
                    crate::github_repo_info::RepoInfoView {
                        full_name: full,
                        mods: seq![crate::github_config::spec_root_mod(full)],
                        weekly_update_from_crowdin: true,
                        branch: Option::None,
                    },
                )
            } else {
                Result::Err(GetRepoInfoError::LocaleEnDirectoryMissingOrEmpty)
            },
            Option::None => Result::Err(GetRepoInfoError::LocaleEnDirectoryMissingOrEmpty),
        }
    }
}

/// Resolves a repository to its description from the listings the caller
/// fetched: the configuration file when the root holds one, else the
/// presence of `locale` and a non-empty `locale/en`.
pub fn repo_info_from_listing(
    full_name: &str,
    root_items: &Vec<String>,
    config_json: &Option<String>,
    locale_en_items: &Option<Vec<String>>,
) -> (r: Result<GithubRepoInfo, GetRepoInfoError>)
    requires
        full_name@.contains('/'),
    ensures
        match r {
            Result::Ok(ri) => spec_repo_info_from_listing(
                full_name@,
                root_items@.map_values(|s: String| s@),
                match config_json {
                    Option::Some(j) => Option::Some(j@),
                    Option::None => Option::None,
                },
                match locale_en_items {
                    Option::Some(items) => Option::Some(items@.map_values(|s: String| s@)),
                    Option::None => Option::None,
                },
            ) == Result::<crate::github_repo_info::RepoInfoView, GetRepoInfoError>::Ok(ri@),
            Result::Err(e) => spec_repo_info_from_listing(
                full_name@,
                root_items@.map_values(|s: String| s@),
                match config_json {
                    Option::Some(j) => Option::Some(j@),
                    Option::None => Option::None,
                },
                match locale_en_items {
                    Option::Some(items) => Option::Some(items@.map_values(|s: String| s@)),
                    Option::None => Option::None,
                },
            ) == Result::<crate::github_repo_info::RepoInfoView, GetRepoInfoError>::Err(e),
        },
{
    if contains_string(root_items, github_config_file_name()) {
        match config_json {
            Some(j) => match parse_github_repo_info_json(full_name, j.as_str()) {
                Some(ri) => Ok(ri),
                None => Err(GetRepoInfoError::InvalidConfig),
            },
            None => Err(GetRepoInfoError::InvalidConfig),
        }
    } else if !contains_string(root_items, "locale") {
        Err(GetRepoInfoError::LocaleDirectoryMissing)
    } else {
        match locale_en_items {
            Some(items) => {
                if items.len() > 0 {
                    let ri = GithubRepoInfo::new_single_mod(full_name);
                    proof {
                        assert(ri@.mods =~= seq![
                            crate::github_config::spec_root_mod(full_name@),
                        ]);
                        assert(ri@ =~= spec_repo_info_from_listing(
                            full_name@,
                            root_items@.map_values(|s: String| s@),
                            match config_json {
                                Option::Some(j) => Option::Some(j@),
                                Option::None => Option::None,
                            },
                            match locale_en_items {
                                Option::Some(its) => Option::Some(
                                    its@.map_values(|s: String| s@),
                                ),
                                Option::None => Option::None,
                            },
                        )->Ok_0);
                    }
                    Ok(ri)
                } else {
                    Err(GetRepoInfoError::LocaleEnDirectoryMissingOrEmpty)
                }
            },
            None => Err(GetRepoInfoError::LocaleEnDirectoryMissingOrEmpty),
        }
    }
}

/// Whether one string contains another as a contiguous substring.
pub open spec fn spec_contains_substr(s: Seq<char>, pat: Seq<char>) -> bool {
    exists|i: int| 0 <= i && i + pat.len() <= s.len() && #[trigger] s.subrange(i, i + pat.len()) == pat
}

/// Whether a string contains `locale/en/` as a substring.
fn contains_locale_en(s: &str) -> (r: bool)
    ensures
        r == spec_contains_substr(s@, "locale/en/"@),
{
    let chars = chars_of(s);
    let pat = chars_of("locale/en/");
    let n = chars.len();
    let m = pat.len();
    if m > n {
        proof {
            assert(!spec_contains_substr(s@, "locale/en/"@));
        }
        return false;
    }
    let mut i: usize = 0;
    while i <= n - m
        invariant
            chars@ == s@,
            pat@ == "locale/en/"@,
            n == chars@.len(),
            m == pat@.len(),
            m <= n,
            i <= n,
            forall|a: int| 0 <= a < i ==> #[trigger] chars@.subrange(a, a + m) != pat@,
        decreases n - i,
    {
        let mut k: usize = 0;
        let mut matches = true;
        while k < m
            invariant
                chars@ == s@,
                pat@ == "locale/en/"@,
                n == chars@.len(),
                m == pat@.len(),
                i + m <= n,
                k <= m,
                matches == (forall|b: int|
                    0 <= b < k ==> chars@[i + b] == #[trigger] pat@[b]),
            decreases m - k,
        {
            if chars[i + k] != pat[k] {
                matches = false;
                proof {
                    assert(chars@[i + k as int] != pat@[k as int]);
                }
                k = m;
            } else {
                proof {
                    assert(chars@[i + k as int] == pat@[k as int]);
                }
                k = k + 1;
            }
        }
        if matches {
            proof {
                assert(chars@.subrange(i as int, i + m) =~= pat@);
            }
            return true;
        }
        proof {
            if chars@.subrange(i as int, i + m) == pat@ {
                assert(forall|b: int|
                    0 <= b < m ==> chars@[i + b] == #[trigger] chars@.subrange(i as int, i + m)[b]);
                assert(false);
            }
        }
        i = i + 1;
    }
    proof {
        if spec_contains_substr(s@, "locale/en/"@) {
            let w = choose|w: int|
                0 <= w && w + m <= n && #[trigger] chars@.subrange(w, w + m) == pat@;
            assert(false);
        }
    }
    false
}

/// Whether a push touches localization input: it changed the configuration
/// file or any file under a `locale/en/` directory.
pub open spec fn spec_has_interesting_changes(files: Seq<Seq<char>>) -> bool {
    exists|i: int|
        0 <= i < files.len() && ((#[trigger] files[i]) == "factorio-mods-localization.json"@
            || spec_contains_substr(files[i], "locale/en/"@))
}

/// Whether any changed file of a push matters for localization: the
/// configuration file, or anything under `locale/en/`.
pub fn has_interesting_changes(changed_files: &Vec<String>) -> (r: bool)
    ensures
        r == spec_has_interesting_changes(changed_files@.map_values(|s: String| s@)),
{
    let ghost fv = changed_files@.map_values(|s: String| s@);
    let mut i: usize = 0;
    while i < changed_files.len()
        invariant
            i <= changed_files@.len(),
            fv == changed_files@.map_values(|s: String| s@),
            forall|j: int|
                0 <= j < i ==> !((#[trigger] fv[j]) == "factorio-mods-localization.json"@
                    || spec_contains_substr(fv[j], "locale/en/"@)),
        decreases changed_files@.len() - i,
    {
        proof {
            assert(fv[i as int] == changed_files@[i as int]@);
        }
        if str_eq(changed_files[i].as_str(), github_config_file_name()) || contains_locale_en(
            changed_files[i].as_str(),
        ) {
            return true;
        }
        i = i + 1;
    }
    false
}

/// What the forks of a repository say: `None` when the account owns no
/// fork, `Some(true)` when it owns a fork under the same name, and
/// `Some(false)` when its fork carries a different name and cannot be
/// used.
pub open spec fn spec_check_fork_exists(forks: Seq<Seq<char>>, repo: Seq<char>) -> Option<bool>
    decreases forks.len(),
{
    if forks.len() == 0 {
        Option::None
    } else if spec_owner_of(forks[0]) == "factorio-mods-helper"@ {
        Option::Some(spec_repo_of(forks[0]) == repo)
    } else {
        spec_check_fork_exists(forks.drop_first(), repo)
    }
}

/// Examines a repository's fork list: the first fork owned by the helper
/// account decides whether a usable fork exists.
pub fn check_fork_exists(forks: &Vec<String>, repo: &str) -> (r: Option<bool>)
    requires
        forall|i: int| 0 <= i < forks@.len() ==> (#[trigger] forks@[i])@.contains('/'),
    ensures
        r == spec_check_fork_exists(forks@.map_values(|s: String| s@), repo@),
{
    let ghost fv = forks@.map_values(|s: String| s@);
    let mut i: usize = 0;
    proof {
        assert(fv.skip(0) =~= fv);
    }
    while i < forks.len()
        invariant
            i <= forks@.len(),
            fv == forks@.map_values(|s: String| s@),
            forall|j: int| 0 <= j < forks@.len() ==> (#[trigger] forks@[j])@.contains('/'),
            spec_check_fork_exists(fv.skip(i as int), repo@) == spec_check_fork_exists(fv, repo@),
        decreases forks@.len() - i,
    {
        proof {
            assert(fv.skip(i as int)[0] == fv[i as int]);
            assert(fv.skip(i as int).drop_first() =~= fv.skip(i as int + 1));
            assert(fv[i as int] == forks@[i as int]@);
            lemma_find_char(forks@[i as int]@, '/');
        }
        let chars = chars_of(forks[i].as_str());
        let slash = find_char(&chars, '/').unwrap();
        let n = chars.len();
        let fork_owner = string_of(&subvec(&chars, 0, slash));
        let fork_repo = string_of(&subvec(&chars, slash + 1, n));
        proof {
            assert(fork_owner@ =~= spec_owner_of(fv[i as int]));
            assert(fork_repo@ =~= spec_repo_of(fv[i as int]));
        }
        if str_eq(fork_owner.as_str(), github_user_name()) {
            return Some(str_eq(fork_repo.as_str(), repo));
        }
        i = i + 1;
    }
    proof {
        assert(fv.skip(i as int).len() == 0);
    }
    None
}

/// A repository left out of the batch update by name: two repositories are
/// skipped because updating them exhausts memory.
pub open spec fn spec_ignored_repository(full: Seq<char>) -> bool {
    full == "robot256/cargo_ships"@ || full == "jingleheimer-schmidt/status_bars"@
}

/// The repositories that take part in the batch update: those not ignored
/// by name and with the weekly update enabled.
pub open spec fn spec_update_all_filter(repos: Seq<(crate::github_repo_info::RepoInfoView, u64)>) -> Seq<
    (crate::github_repo_info::RepoInfoView, u64)>
    decreases repos.len(),
{
    if repos.len() == 0 {
        Seq::empty()
    } else {
        let rest = spec_update_all_filter(repos.drop_first());
        if !spec_ignored_repository(repos[0].0.full_name) && repos[0].0.weekly_update_from_crowdin {
            seq![repos[0]] + rest
        } else {
            rest
        }
    }
}

/// Keeps the repositories that take part in the batch update: ignored
/// repositories and those with the weekly update disabled are dropped.
pub fn filter_repositories_for_update_all(repositories: Vec<(GithubRepoInfo, u64)>) -> (r: Vec<
    (GithubRepoInfo, u64)>)
    ensures
        r@.map_values(|p: (GithubRepoInfo, u64)| (p.0@, p.1)) == spec_update_all_filter(
            repositories@.map_values(|p: (GithubRepoInfo, u64)| (p.0@, p.1)),
        ),
{
    let ghost rv = repositories@.map_values(|p: (GithubRepoInfo, u64)| (p.0@, p.1));
    let mut kept: Vec<(GithubRepoInfo, u64)> = Vec::new();
    let mut i: usize = 0;
    proof {
        assert(rv.skip(0) =~= rv);
        assert(kept@.map_values(|p: (GithubRepoInfo, u64)| (p.0@, p.1)) + spec_update_all_filter(
            rv,
        ) =~= spec_update_all_filter(rv));
    }
    while i < repositories.len()
        invariant
            i <= repositories@.len(),
            rv == repositories@.map_values(|p: (GithubRepoInfo, u64)| (p.0@, p.1)),
            kept@.map_values(|p: (GithubRepoInfo, u64)| (p.0@, p.1)) + spec_update_all_filter(
                rv.skip(i as int),
            ) == spec_update_all_filter(rv),
        decreases repositories@.len() - i,
    {
        proof {
            assert(rv.skip(i as int)[0] == rv[i as int]);
            assert(rv.skip(i as int).drop_first() =~= rv.skip(i as int + 1));
            assert(rv[i as int] == (repositories@[i as int].0@, repositories@[i as int].1));
        }
        let name = &repositories[i].0.full_name;
        let ignored = str_eq(name.as_str(), "robot256/cargo_ships") || str_eq(
            name.as_str(),
            "jingleheimer-schmidt/status_bars",
        );
        if !ignored && repositories[i].0.weekly_update_from_crowdin {
            let copied = (clone_repo_info(&repositories[i].0), repositories[i].1);
            let ghost cv = (copied.0@, copied.1);
            let ghost pre = kept@.map_values(|p: (GithubRepoInfo, u64)| (p.0@, p.1));
            kept.push(copied);
            proof {
                assert(cv == rv[i as int]);
                assert(kept@.map_values(|p: (GithubRepoInfo, u64)| (p.0@, p.1)) =~= pre.push(cv));
                assert(pre.push(cv) + spec_update_all_filter(rv.skip(i as int + 1)) =~= pre + (
                seq![rv[i as int]] + spec_update_all_filter(rv.skip(i as int + 1))));
            }
        }
        i = i + 1;
    }
    proof {
        assert(rv.skip(i as int) =~= Seq::<(crate::github_repo_info::RepoInfoView, u64)>::empty());
        assert(kept@.map_values(|p: (GithubRepoInfo, u64)| (p.0@, p.1)) + Seq::<
            (crate::github_repo_info::RepoInfoView, u64),
        >::empty() =~= kept@.map_values(|p: (GithubRepoInfo, u64)| (p.0@, p.1)));
    }
    kept
}

/// A copy of a repository description, with the same view.
pub fn clone_repo_info(ri: &GithubRepoInfo) -> (r: GithubRepoInfo)
    ensures
        r@ == ri@,
{
    let mut mods: Vec<GithubModInfo> = Vec::new();
    let mut i: usize = 0;
    while i < ri.mods.len()
        invariant
            i <= ri.mods@.len(),
            mods@.len() == i,
            forall|k: int| 0 <= k < i ==> (#[trigger] mods@[k])@ == ri.mods@[k]@,
        decreases ri.mods@.len() - i,
    {
        let m = &ri.mods[i];
        mods.push(
            GithubModInfo {
                owner: m.owner.clone(),
                repo: m.repo.clone(),
                locale_path: m.locale_path.clone(),
                crowdin_name: clone_opt_string(&m.crowdin_name),
            },
        );
        i = i + 1;
    }
    let r = GithubRepoInfo {
        full_name: ri.full_name.clone(),
        mods,
        weekly_update_from_crowdin: ri.weekly_update_from_crowdin,
        branch: clone_opt_string(&ri.branch),
    };
    proof {
        assert(r@.mods =~= ri@.mods);
        assert(r@ =~= ri@);
    }
    r
}

} // verus!
