//! The validated description of one repository and of the mods inside it.
//!
//! One [`GithubRepoInfo`] corresponds to one repository; each of its
//! [`GithubModInfo`] entries corresponds to one directory on the translation
//! platform.

use vstd::prelude::*;

use crate::crowdin::spec_crowdin_directory_name;
use crate::text::{chars_of, find_char, str_eq, string_of, subvec, lemma_find_char,
    spec_find_char};

verus! {

/// The owner part of a `owner/repo` full name: everything before the first
/// slash.
pub open spec fn spec_owner_of(full: Seq<char>) -> Seq<char> {
    full.take(spec_find_char(full, '/'))
}

/// The repository part of a `owner/repo` full name: everything after the
/// first slash.
pub open spec fn spec_repo_of(full: Seq<char>) -> Seq<char> {
    full.skip(spec_find_char(full, '/') + 1)
}

/// Mathematical image of a [`GithubModInfo`].
#[verifier::ext_equal]
pub struct ModInfoView {
    pub owner: Seq<char>,
    pub repo: Seq<char>,
    pub locale_path: Seq<char>,
    pub crowdin_name: Option<Seq<char>>,
}

/// One localizable mod: where its locale directory lives inside the
/// repository, and under which name it appears on the translation platform
/// (`None` means the default repository-derived name).
///
/// Depending on the repository configuration:
/// - no configuration file: `locale_path = "locale"`, `crowdin_name = None`;
/// - `["Mod1"]` or `{"mods": ["Mod1"]}`: `locale_path = "Mod1/locale"`,
///   `crowdin_name = Some("Mod1")`;
/// - `{"mods": [{"localePath": "custom/path", "crowdinName": "Foo"}]}`:
///   `locale_path = "custom/path"`, `crowdin_name = Some("Foo")`.
#[derive(Debug, Clone, PartialEq, Eq)]
pub struct GithubModInfo {
    pub owner: String,
    pub repo: String,
    pub locale_path: String,
    pub crowdin_name: Option<String>,
}

impl View for GithubModInfo {
    type V = ModInfoView;

    open spec fn view(&self) -> ModInfoView {
        ModInfoView {
            owner: self.owner@,
            repo: self.repo@,
            locale_path: self.locale_path@,
            crowdin_name: match self.crowdin_name {
                Option::Some(n) => Option::Some(n@),
                Option::None => Option::None,
            },
        }
    }
}

/// A character that may not appear in a locale path: path traversal and
/// reserved filesystem characters are rejected.
pub open spec fn spec_forbidden_path_char(c: char) -> bool {
    c == '.' || c == ' ' || c == '<' || c == '>' || c == ':' || c == '"' || c == '\\' || c == '|'
        || c == '?' || c == '*'
}

/// A valid locale path: non-empty, free of reserved characters, and without
/// empty slash-separated segments.
pub open spec fn spec_locale_path_ok(p: Seq<char>) -> bool {
    &&& p.len() > 0
    &&& forall|i: int| 0 <= i < p.len() ==> !spec_forbidden_path_char(#[trigger] p[i])
    &&& p[0] != '/'
    &&& p[p.len() - 1] != '/'
    &&& forall|i: int| 0 <= i < p.len() - 1 ==> !(#[trigger] p[i] == '/' && p[i + 1] == '/')
}

/// A character allowed in a translation-platform directory key.
pub open spec fn spec_crowdin_name_char(c: char) -> bool {
    ('a' <= c && c <= 'z') || ('A' <= c && c <= 'Z') || ('0' <= c && c <= '9') || c == '.' || c
        == '_' || c == '-'
}

/// A valid translation-platform directory key: one or more letters, digits,
/// dots, underscores or hyphens.
pub open spec fn spec_crowdin_name_ok(n: Seq<char>) -> bool {
    n.len() > 0 && forall|i: int| 0 <= i < n.len() ==> spec_crowdin_name_char(#[trigger] n[i])
}

/// What [`GithubModInfo::new_custom`] produces.
pub open spec fn spec_new_custom(full: Seq<char>, locale_path: Option<Seq<char>>, crowdin_name: Seq<char>) -> Option<ModInfoView> {
    let path = match locale_path {
        Option::Some(p) => p,
        Option::None => crowdin_name + "/locale"@,
    };
    if spec_locale_path_ok(path) && spec_crowdin_name_ok(crowdin_name) {
        Option::Some(ModInfoView {
            owner: spec_owner_of(full),
            repo: spec_repo_of(full),
            locale_path: path,
            crowdin_name: Option::Some(crowdin_name),
        })
    } else {
        Option::None
    }
}

impl GithubModInfo {
    /// Builds a mod description from the repository full name and the given
    /// locale path and platform key.
    pub fn new(full_name: &str, locale_path: String, crowdin_name: Option<String>) -> (r:
        GithubModInfo)
        requires
            full_name@.contains('/'),
        ensures
            r@.owner == spec_owner_of(full_name@),
            r@.repo == spec_repo_of(full_name@),
            r@.locale_path == locale_path@,
            r@.crowdin_name == match crowdin_name {
                Option::Some(n) => Option::Some(n@),
                Option::None => Option::None::<Seq<char>>,
            },
    {
        let chars = chars_of(full_name);
        proof {
            lemma_find_char(chars@, '/');
        }
        let slash = find_char(&chars, '/').unwrap();
        let n = chars.len();
        let owner = string_of(&subvec(&chars, 0, slash));
        let repo = string_of(&subvec(&chars, slash + 1, n));
        proof {
            assert(owner@ =~= spec_owner_of(full_name@));
            assert(repo@ =~= spec_repo_of(full_name@));
        }
        GithubModInfo { owner, repo, locale_path, crowdin_name }
    }

    /// The single default mod of a repository without a configuration file:
    /// locale directory at the repository root, default platform name.
    pub fn new_root(full_name: &str) -> (r: GithubModInfo)
        requires
            full_name@.contains('/'),
        ensures
            r@.owner == spec_owner_of(full_name@),
            r@.repo == spec_repo_of(full_name@),
            r@.locale_path == "locale"@,
            r@.crowdin_name is None,
    {
        Self::new(full_name, String::from_str("locale"), None)
    }

    /// A configured mod: the locale path defaults to `<name>/locale`, and
    /// both the path and the platform key are validated; an invalid one
    /// rejects the mod.
    pub fn new_custom(full_name: &str, locale_path: Option<String>, crowdin_name: String) -> (r:
        Option<GithubModInfo>)
        requires
            full_name@.contains('/'),
        ensures
            match r {
                Option::Some(m) => spec_new_custom(
                    full_name@,
                    match locale_path {
                        Option::Some(p) => Option::Some(p@),
                        Option::None => Option::None,
                    },
                    crowdin_name@,
                ) == Option::Some(m@),
                Option::None => spec_new_custom(
                    full_name@,
                    match locale_path {
                        Option::Some(p) => Option::Some(p@),
                        Option::None => Option::None,
                    },
                    crowdin_name@,
                ) is None,
            },
    {
        let path: String = match locale_path {
            Some(p) => p,
            None => {
                let mut s = crowdin_name.clone();
                s.append("/locale");
                s
            },
        };
        if !Self::check_locale_path(path.as_str()) {
            return None;
        }
        if !Self::check_crowdin_name(crowdin_name.as_str()) {
            return None;
        }
        Some(Self::new(full_name, path, Some(crowdin_name)))
    }

    /// Whether a locale path is acceptable: non-empty, no reserved
    /// characters, no empty segments.
    pub fn check_locale_path(locale_path: &str) -> (r: bool)
        ensures
            r == spec_locale_path_ok(locale_path@),
    {
        let chars = chars_of(locale_path);
        if chars.len() == 0 {
            return false;
        }
        if chars[0] == '/' || chars[chars.len() - 1] == '/' {
            return false;
        }
        let mut i: usize = 0;
        while i < chars.len()
            invariant
                i <= chars@.len(),
                chars@ == locale_path@,
                chars@.len() > 0,
                forall|j: int| 0 <= j < i ==> !spec_forbidden_path_char(#[trigger] chars@[j]),
                forall|j: int|
                    0 <= j < i && j < chars@.len() - 1 ==> !(#[trigger] chars@[j] == '/'
                        && chars@[j + 1] == '/'),
            decreases chars@.len() - i,
        {
            let c = chars[i];
            if c == '.' || c == ' ' || c == '<' || c == '>' || c == ':' || c == '"' || c == '\\'
                || c == '|' || c == '?' || c == '*' {
                return false;
            }
            if c == '/' && i + 1 < chars.len() && chars[i + 1] == '/' {
                return false;
            }
            i = i + 1;
        }
        true
    }

    /// Whether a platform directory key is acceptable: one or more letters,
    /// digits, dots, underscores or hyphens.
    pub fn check_crowdin_name(crowdin_name: &str) -> (r: bool)
        ensures
            r == spec_crowdin_name_ok(crowdin_name@),
    {
        let chars = chars_of(crowdin_name);
        if chars.len() == 0 {
            return false;
        }
        let mut i: usize = 0;
        while i < chars.len()
            invariant
                i <= chars@.len(),
                chars@ == crowdin_name@,
                chars@.len() > 0,
                forall|j: int| 0 <= j < i ==> spec_crowdin_name_char(#[trigger] chars@[j]),
            decreases chars@.len() - i,
        {
            let c = chars[i];
            let ok = ('a' <= c && c <= 'z') || ('A' <= c && c <= 'Z') || ('0' <= c && c <= '9')
                || c == '.' || c == '_' || c == '-';
            if !ok {
                return false;
            }
            i = i + 1;
        }
        true
    }
}

/// Mathematical image of a [`GithubRepoInfo`].
#[verifier::ext_equal]
pub struct RepoInfoView {
    pub full_name: Seq<char>,
    pub mods: Seq<ModInfoView>,
    pub weekly_update_from_crowdin: bool,
    pub branch: Option<Seq<char>>,
}

/// One repository together with its localizable mods, whether the weekly
/// platform-to-repository update is enabled, and the tracked branch when one
/// is configured.
#[derive(Debug, Clone, PartialEq, Eq)]
pub struct GithubRepoInfo {
    pub full_name: String,
    pub mods: Vec<GithubModInfo>,
    pub weekly_update_from_crowdin: bool,
    /// Branch from which English files are tracked and to which translations
    /// are pushed; `None` means the default branch.
    pub branch: Option<String>,
}

impl View for GithubRepoInfo {
    type V = RepoInfoView;

    open spec fn view(&self) -> RepoInfoView {
        RepoInfoView {
            full_name: self.full_name@,
            mods: self.mods@.map_values(|m: GithubModInfo| m@),
            weekly_update_from_crowdin: self.weekly_update_from_crowdin,
            branch: match self.branch {
                Option::Some(b) => Option::Some(b@),
                Option::None => Option::None,
            },
        }
    }
}

/// The sub-list of mods whose platform key is exactly `name`, in order.
pub open spec fn spec_mods_with_name(mods: Seq<ModInfoView>, name: Seq<char>) -> Seq<ModInfoView>
    decreases mods.len(),
{
    if mods.len() == 0 {
        Seq::empty()
    } else {
        let rest = spec_mods_with_name(mods.drop_last(), name);
        if mods.last().crowdin_name == Option::Some(name) {
            rest.push(mods.last())
        } else {
            rest
        }
    }
}

/// The sub-list of mods whose mapped platform directory name appears among
/// `dirs`, in order.
pub open spec fn spec_mods_present(mods: Seq<ModInfoView>, dirs: Seq<Seq<char>>) -> Seq<ModInfoView>
    decreases mods.len(),
{
    if mods.len() == 0 {
        Seq::empty()
    } else {
        let rest = spec_mods_present(mods.drop_last(), dirs);
        if dirs.contains(spec_crowdin_directory_name(mods.last())) {
            rest.push(mods.last())
        } else {
            rest
        }
    }
}

impl GithubRepoInfo {
    /// Packs the parts of a repository description; a missing weekly-update
    /// flag means enabled.
    pub fn new(full_name: &str, mods: Vec<GithubModInfo>, weekly_update_from_crowdin: Option<
        bool>, branch: Option<String>) -> (r: GithubRepoInfo)
        ensures
            r@.full_name == full_name@,
            r@.mods == mods@.map_values(|m: GithubModInfo| m@),
            r@.weekly_update_from_crowdin == match weekly_update_from_crowdin {
                Option::Some(b) => b,
                Option::None => true,
            },
            r@.branch == match branch {
                Option::Some(b) => Option::Some(b@),
                Option::None => Option::None::<Seq<char>>,
            },
    {
        let weekly = match weekly_update_from_crowdin {
            Some(b) => b,
            None => true,
        };
        GithubRepoInfo {
            full_name: String::from_str(full_name),
            mods,
            weekly_update_from_crowdin: weekly,
            branch,
        }
    }

    /// A repository description read from a configuration file; an empty mod
    /// list is invalid and rejected.
    pub fn new_from_config(full_name: &str, mods: Vec<GithubModInfo>, weekly_update_from_crowdin:
        Option<bool>, branch: Option<String>) -> (r: Option<GithubRepoInfo>)
        ensures
            mods@.len() == 0 <==> r is None,
            match r {
                Option::Some(ri) => {
                    &&& ri@.full_name == full_name@
                    &&& ri@.mods == mods@.map_values(|m: GithubModInfo| m@)
                    &&& ri@.weekly_update_from_crowdin == match weekly_update_from_crowdin {
                        Option::Some(b) => b,
                        Option::None => true,
                    }
                    &&& ri@.branch == match branch {
                        Option::Some(b) => Option::Some(b@),
                        Option::None => Option::None::<Seq<char>>,
                    }
                },
                Option::None => true,
            },
    {
        if mods.len() == 0 {
            return None;
        }
        Some(Self::new(full_name, mods, weekly_update_from_crowdin, branch))
    }

    /// The description of a repository without a configuration file: one
    /// default mod rooted at `locale`.
    pub fn new_single_mod(full_name: &str) -> (r: GithubRepoInfo)
        requires
            full_name@.contains('/'),
        ensures
            r@.full_name == full_name@,
            r@.mods.len() == 1,
            r@.mods[0].owner == spec_owner_of(full_name@),
            r@.mods[0].repo == spec_repo_of(full_name@),
            r@.mods[0].locale_path == "locale"@,
            r@.mods[0].crowdin_name is None,
            r@.weekly_update_from_crowdin == true,
            r@.branch is None,
    {
        let mut mods: Vec<GithubModInfo> = Vec::new();
        mods.push(GithubModInfo::new_root(full_name));
        Self::new(full_name, mods, None, None)
    }

    /// A description holding one configured mod under the given
    /// subdirectory; an invalid subdirectory name is rejected.
    pub fn new_one_mod_with_subpath(full_name: &str, subpath: String) -> (r: Option<
        GithubRepoInfo>)
        requires
            full_name@.contains('/'),
        ensures
            match r {
                Option::Some(ri) => {
                    &&& ri@.full_name == full_name@
                    &&& ri@.mods.len() == 1
                    &&& spec_new_custom(full_name@, Option::None, subpath@) == Option::Some(
                        ri@.mods[0],
                    )
                    &&& ri@.weekly_update_from_crowdin == true
                    &&& ri@.branch is None
                },
                Option::None => spec_new_custom(full_name@, Option::None, subpath@) is None,
            },
    {
        match GithubModInfo::new_custom(full_name, None, subpath) {
            Some(m) => {
                let mut mods: Vec<GithubModInfo> = Vec::new();
                mods.push(m);
                Some(Self::new(full_name, mods, None, None))
            },
            None => None,
        }
    }

    /// Keeps only the mod with the given platform directory key; reports
    /// whether any mod is left.
    pub fn keep_single_mod_with_crowdin_name(&mut self, crowdin_name: &str) -> (r: bool)
        ensures
            final(self).full_name == old(self).full_name,
            final(self).weekly_update_from_crowdin == old(self).weekly_update_from_crowdin,
            final(self).branch == old(self).branch,
            final(self).mods@.map_values(|m: GithubModInfo| m@) == spec_mods_with_name(
                old(self).mods@.map_values(|m: GithubModInfo| m@),
                crowdin_name@,
            ),
            r == (final(self).mods@.len() != 0),
    {
        let ghost oldmods = self.mods@.map_values(|m: GithubModInfo| m@);
        let mut kept: Vec<GithubModInfo> = Vec::new();
        let mut i: usize = 0;
        proof {
            assert(oldmods.take(0) =~= Seq::<ModInfoView>::empty());
            assert(kept@.map_values(|m: GithubModInfo| m@) =~= Seq::<ModInfoView>::empty());
        }
        while i < self.mods.len()
            invariant
                i <= self.mods@.len(),
                oldmods == self.mods@.map_values(|m: GithubModInfo| m@),
                kept@.map_values(|m: GithubModInfo| m@) == spec_mods_with_name(
                    oldmods.take(i as int),
                    crowdin_name@,
                ),
            decreases self.mods@.len() - i,
        {
            let keep = mod_has_crowdin_name(&self.mods[i], crowdin_name);
            proof {
                assert(oldmods[i as int] == self.mods@[i as int]@);
                assert(oldmods.take(i + 1).drop_last() =~= oldmods.take(i as int));
                assert(oldmods.take(i + 1).last() == oldmods[i as int]);
            }
            if keep {
                let m = &self.mods[i];
                let kept_m = GithubModInfo {
                    owner: m.owner.clone(),
                    repo: m.repo.clone(),
                    locale_path: m.locale_path.clone(),
                    crowdin_name: clone_opt_string(&m.crowdin_name),
                };
                proof {
                    assert(kept_m@ == oldmods[i as int]);
                }
                kept.push(kept_m);
                proof {
                    assert(kept@.map_values(|m: GithubModInfo| m@) =~= spec_mods_with_name(
                        oldmods.take(i + 1),
                        crowdin_name@,
                    ));
                }
            } else {
                proof {
                    assert(kept@.map_values(|m: GithubModInfo| m@) =~= spec_mods_with_name(
                        oldmods.take(i + 1),
                        crowdin_name@,
                    ));
                }
            }
            i = i + 1;
        }
        proof {
            assert(oldmods.take(i as int) =~= oldmods);
        }
        self.mods = kept;
        self.mods.len() != 0
    }

    /// Keeps only the mods whose mapped platform directory name appears in
    /// the given list of remote directories; a repository left without mods
    /// is dropped.
    pub fn filter_mods_present_on_crowdin(self, directories_crowdin: &Vec<String>) -> (r: Option<
        GithubRepoInfo>)
        ensures
            match r {
                Option::Some(ri) => {
                    &&& ri@.full_name == self@.full_name
                    &&& ri@.weekly_update_from_crowdin == self@.weekly_update_from_crowdin
                    &&& ri@.branch == self@.branch
                    &&& ri@.mods == spec_mods_present(
                        self@.mods,
                        directories_crowdin@.map_values(|d: String| d@),
                    )
                    &&& ri@.mods.len() != 0
                },
                Option::None => spec_mods_present(
                    self@.mods,
                    directories_crowdin@.map_values(|d: String| d@),
                ).len() == 0,
            },
    {
        let ghost dirs = directories_crowdin@.map_values(|d: String| d@);
        let ghost oldmods = self.mods@.map_values(|m: GithubModInfo| m@);
        let mut kept: Vec<GithubModInfo> = Vec::new();
        let mut i: usize = 0;
        proof {
            assert(oldmods.take(0) =~= Seq::<ModInfoView>::empty());
            assert(kept@.map_values(|m: GithubModInfo| m@) =~= Seq::<ModInfoView>::empty());
        }
        while i < self.mods.len()
            invariant
                i <= self.mods@.len(),
                dirs == directories_crowdin@.map_values(|d: String| d@),
                oldmods == self.mods@.map_values(|m: GithubModInfo| m@),
                kept@.map_values(|m: GithubModInfo| m@) == spec_mods_present(
                    oldmods.take(i as int),
                    dirs,
                ),
            decreases self.mods@.len() - i,
        {
            let name = crate::crowdin::get_crowdin_directory_name(&self.mods[i]);
            let keep = contains_string(directories_crowdin, name.as_str());
            proof {
                assert(oldmods[i as int] == self.mods@[i as int]@);
                assert(oldmods.take(i + 1).drop_last() =~= oldmods.take(i as int));
                assert(oldmods.take(i + 1).last() == oldmods[i as int]);
                assert(keep == dirs.contains(spec_crowdin_directory_name(oldmods[i as int])));
            }
            if keep {
                let m = &self.mods[i];
                let kept_m = GithubModInfo {
                    owner: m.owner.clone(),
                    repo: m.repo.clone(),
                    locale_path: m.locale_path.clone(),
                    crowdin_name: clone_opt_string(&m.crowdin_name),
                };
                proof {
                    assert(kept_m@ == oldmods[i as int]);
                }
                kept.push(kept_m);
                proof {
                    assert(kept@.map_values(|m: GithubModInfo| m@) =~= spec_mods_present(
                        oldmods.take(i + 1),
                        dirs,
                    ));
                }
            } else {
                proof {
                    assert(kept@.map_values(|m: GithubModInfo| m@) =~= spec_mods_present(
                        oldmods.take(i + 1),
                        dirs,
                    ));
                }
            }
            i = i + 1;
        }
        proof {
            assert(oldmods.take(i as int) =~= oldmods);
        }
        if kept.len() == 0 {
            return None;
        }
        Some(GithubRepoInfo {
            full_name: self.full_name,
            mods: kept,
            weekly_update_from_crowdin: self.weekly_update_from_crowdin,
            branch: self.branch,
        })
    }
}

/// Whether a mod carries exactly this platform directory key.
pub fn mod_has_crowdin_name(m: &GithubModInfo, name: &str) -> (r: bool)
    ensures
        r == (m@.crowdin_name == Option::Some(name@)),
{
    match &m.crowdin_name {
        Some(cn) => str_eq(cn.as_str(), name),
        None => false,
    }
}

/// A copy of an optional string, with the same characters.
pub fn clone_opt_string(s: &Option<String>) -> (r: Option<String>)
    ensures
        match (s, r) {
            (Option::Some(a), Option::Some(b)) => a@ == b@,
            (Option::None, Option::None) => true,
            _ => false,
        },
{
    match s {
        Some(v) => Some(v.clone()),
        None => None,
    }
}

/// Whether the list contains a string with exactly these characters.
pub fn contains_string(list: &Vec<String>, s: &str) -> (r: bool)
    ensures
        r == list@.map_values(|d: String| d@).contains(s@),
{
    let mut i: usize = 0;
    while i < list.len()
        invariant
            i <= list@.len(),
            forall|j: int| 0 <= j < i ==> (#[trigger] list@[j])@ != s@,
        decreases list@.len() - i,
    {
        if str_eq(list[i].as_str(), s) {
            proof {
                assert(list@.map_values(|d: String| d@)[i as int] == s@);
                assert(list@.map_values(|d: String| d@).contains(s@));
            }
            return true;
        }
        i = i + 1;
    }
    proof {
        if list@.map_values(|d: String| d@).contains(s@) {
            let mapped = list@.map_values(|d: String| d@);
            let w = choose|w: int| 0 <= w < mapped.len() && mapped[w] == s@;
            assert(list@[w]@ == s@);
            assert(false);
        }
    }
    false
}

} // verus!
