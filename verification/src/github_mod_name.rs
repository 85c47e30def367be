//! The older mod-name model of the configuration file.
//!
//! It resolves the same two JSON shapes as the newer repository description,
//! but keeps only the subdirectory name of each mod:
//!
//! ```json
//! ["mod1", "mod2"]
//! ```
//!
//! or
//!
//! ```json
//! {
//!   "mods": ["mod1", "mod2"],
//!   "weekly_update_from_crowdin": false
//! }
//! ```

use vstd::prelude::*;

use crate::github_config::{spec_obj_get, spec_string_array, obj_get, string_array};
use crate::github_repo_info::{spec_owner_of, spec_repo_of};
use crate::json::{Json, json_of, parse_json};
use crate::text::{chars_of, find_char, lemma_find_char, string_of, subvec, contains_char};

verus! {

/// Mathematical image of a [`GithubModName`].
#[verifier::ext_equal]
pub struct ModNameView {
    pub owner: Seq<char>,
    pub repo: Seq<char>,
    pub subpath: Option<Seq<char>>,
    pub weekly_update_from_crowdin: bool,
}

/// One mod of a repository under the older model: the repository, an
/// optional subdirectory, and whether the weekly platform-to-repository
/// update is enabled.
#[derive(Debug, Clone, PartialEq, Eq)]
pub struct GithubModName {
    pub owner: String,
    pub repo: String,
    pub subpath: Option<String>,
    pub weekly_update_from_crowdin: bool,
}

impl View for GithubModName {
    type V = ModNameView;

    open spec fn view(&self) -> ModNameView {
        ModNameView {
            owner: self.owner@,
            repo: self.repo@,
            subpath: match self.subpath {
                Option::Some(s) => Option::Some(s@),
                Option::None => Option::None,
            },
            weekly_update_from_crowdin: self.weekly_update_from_crowdin,
        }
    }
}

impl GithubModName {
    /// Builds a mod name from the repository full name; a missing weekly
    /// flag means enabled.
    pub fn new(full_name: &str, subpath: Option<String>, weekly_update_from_crowdin: Option<
        bool>) -> (r: GithubModName)
        requires
            full_name@.contains('/'),
        ensures
            r@.owner == spec_owner_of(full_name@),
            r@.repo == spec_repo_of(full_name@),
            r@.subpath == match subpath {
                Option::Some(s) => Option::Some(s@),
                Option::None => Option::None::<Seq<char>>,
            },
            r@.weekly_update_from_crowdin == match weekly_update_from_crowdin {
                Option::Some(b) => b,
                Option::None => true,
            },
    {
        let chars = chars_of(full_name);
        proof {
            lemma_find_char(chars@, '/');
        }
        let slash = find_char(&chars, '/').unwrap();
        let n = chars.len();
        let owner = string_of(&subvec(&chars, 0, slash));
        let repo = string_of(&subvec(&chars, slash + 1, n));
        proof {
            assert(owner@ =~= spec_owner_of(full_name@));
            assert(repo@ =~= spec_repo_of(full_name@));
        }
        let weekly = match weekly_update_from_crowdin {
            Some(b) => b,
            None => true,
        };
        GithubModName { owner, repo, subpath, weekly_update_from_crowdin: weekly }
    }
}

/// A valid mod subdirectory name: non-empty, not starting with a dot, and
/// without slashes — only direct subdirectories are supported.
pub open spec fn spec_subdirectory_name_ok(name: Seq<char>) -> bool {
    name.len() > 0 && name[0] != '.' && !name.contains('/')
}

/// The `mods` and `weekly_update_from_crowdin` fields of the object shape;
/// `None` when the value is not an object or a field has the wrong type.
pub open spec fn spec_mod_names_data(v: Json) -> Option<(Option<Seq<Seq<char>>>, Option<bool>)> {
    match v {
        Json::Obj(fields) => {
            let mods = match spec_obj_get(fields@, "mods"@) {
                Option::None => Option::Some(Option::None),
                Option::Some(Json::Null) => Option::Some(Option::None),
                Option::Some(Json::Arr(items)) => match spec_string_array(items@) {
                    Option::Some(names) => Option::Some(Option::Some(names)),
                    Option::None => Option::None,
                },
                Option::Some(_) => Option::None,
            };
            let weekly = match spec_obj_get(fields@, "weekly_update_from_crowdin"@) {
                Option::None => Option::Some(Option::None),
                Option::Some(Json::Null) => Option::Some(Option::None),
                Option::Some(Json::Bool(b)) => Option::Some(Option::Some(b)),
                Option::Some(_) => Option::None,
            };
            match (mods, weekly) {
                (Option::Some(m), Option::Some(w)) => Option::Some((m, w)),
                _ => Option::None,
            }
        },
        _ => Option::None,
    }
}

/// The mod names a resolved configuration yields: a missing list means one
/// mod without a subdirectory; an invalid subdirectory name is an error.
pub open spec fn spec_mod_names_finish(
    full: Seq<char>,
    names: Option<Seq<Seq<char>>>,
    weekly: Option<bool>,
) -> Option<Seq<ModNameView>> {
    let w = match weekly {
        Option::Some(b) => b,
        Option::None => true,
    };
    match names {
        Option::None => Option::Some(
            seq![
                ModNameView {
                    owner: spec_owner_of(full),
                    repo: spec_repo_of(full),
                    subpath: Option::None,
                    weekly_update_from_crowdin: w,
                },
            ],
        ),
        Option::Some(ns) => if forall|k: int| 0 <= k < ns.len() ==> spec_subdirectory_name_ok(
            #[trigger] ns[k],
        ) {
            Option::Some(
                ns.map_values(
                    |n: Seq<char>|
                        ModNameView {
                            owner: spec_owner_of(full),
                            repo: spec_repo_of(full),
                            subpath: Option::Some(n),
                            weekly_update_from_crowdin: w,
                        },
                ),
            )
        } else {
            Option::None
        },
    }
}

/// What the older parse yields on a parsed document: the object shape when
/// it resolves, else the bare array of names; `None` stands for every input
/// on which the resolution fails.
pub open spec fn spec_mod_names_from_json(full: Seq<char>, v: Json) -> Option<Seq<ModNameView>> {
    match spec_mod_names_data(v) {
        Option::Some((names, weekly)) => spec_mod_names_finish(full, names, weekly),
        Option::None => match v {
            Json::Arr(items) => match spec_string_array(items@) {
                Option::Some(names) => spec_mod_names_finish(full, Option::Some(names), Option::None),
                Option::None => Option::None,
            },
            _ => Option::None,
        },
    }
}

/// What parsing a configuration text under the older model yields; `None`
/// stands for the inputs on which the parse fails.
pub open spec fn spec_parse_mod_names(full: Seq<char>, j: Option<Json>) -> Option<
    Seq<ModNameView>> {
    match j {
        Option::None => Option::None,
        Option::Some(v) => spec_mod_names_from_json(full, v),
    }
}

/// Whether a mod subdirectory name is acceptable.
pub fn check_subdirectory_name(name: &str) -> (r: bool)
    ensures
        r == spec_subdirectory_name_ok(name@),
{
    let chars = chars_of(name);
    if chars.len() == 0 {
        return false;
    }
    if chars[0] == '.' {
        return false;
    }
    !contains_char(&chars, '/')
}

/// Resolves a parsed configuration document into mod names.
pub fn mod_names_from_json(full_name: &str, v: &Json) -> (r: Option<Vec<GithubModName>>)
    requires
        full_name@.contains('/'),
    ensures
        match r {
            Option::Some(ms) => spec_mod_names_from_json(full_name@, *v) == Option::Some(
                ms@.map_values(|m: GithubModName| m@),
            ),
            Option::None => spec_mod_names_from_json(full_name@, *v) is None,
        },
{
    let mut names_opt: Option<Vec<String>> = None;
    let mut weekly: Option<bool> = None;
    let mut data_ok = false;
    match v {
        Json::Obj(fields) => {
            let mods_ok = match obj_get(fields, "mods") {
                None => true,
                Some(Json::Null) => true,
                Some(Json::Arr(items)) => match string_array(items) {
                    Some(ns) => {
                        names_opt = Some(ns);
                        true
                    },
                    None => false,
                },
                Some(_) => false,
            };
            let weekly_ok = match obj_get(fields, "weekly_update_from_crowdin") {
                None => true,
                Some(Json::Null) => true,
                Some(Json::Bool(b)) => {
                    weekly = Some(*b);
                    true
                },
                Some(_) => false,
            };
            data_ok = mods_ok && weekly_ok;
        },
        _ => {},
    }
    if !data_ok {
        names_opt = None;
        weekly = None;
        match v {
            Json::Arr(items) => match string_array(items) {
                Some(ns) => {
                    names_opt = Some(ns);
                },
                None => {
                    return None;
                },
            },
            _ => {
                return None;
            },
        }
    }
    let ghost names_v: Option<Seq<Seq<char>>> = match &names_opt {
        Option::Some(ns) => Option::Some(ns@.map_values(|s: String| s@)),
        Option::None => Option::None,
    };
    proof {
        assert(spec_mod_names_from_json(full_name@, *v) == spec_mod_names_finish(
            full_name@,
            names_v,
            weekly,
        ));
    }
    mod_names_finish(full_name, names_opt, weekly)
}

/// Builds the mod names once the configured list and flag are resolved.
fn mod_names_finish(full_name: &str, names_opt: Option<Vec<String>>, weekly: Option<bool>) -> (r:
    Option<Vec<GithubModName>>)
    requires
        full_name@.contains('/'),
    ensures
        match r {
            Option::Some(ms) => spec_mod_names_finish(
                full_name@,
                match names_opt {
                    Option::Some(ns) => Option::Some(ns@.map_values(|s: String| s@)),
                    Option::None => Option::None,
                },
                weekly,
            ) == Option::Some(ms@.map_values(|m: GithubModName| m@)),
            Option::None => spec_mod_names_finish(
                full_name@,
                match names_opt {
                    Option::Some(ns) => Option::Some(ns@.map_values(|s: String| s@)),
                    Option::None => Option::None,
                },
                weekly,
            ) is None,
        },
{
    match &names_opt {
        None => {
            let mut out: Vec<GithubModName> = Vec::new();
            out.push(GithubModName::new(full_name, None, weekly));
            proof {
                assert(out@.map_values(|m: GithubModName| m@) =~= spec_mod_names_finish(
                    full_name@,
                    Option::None,
                    weekly,
                )->Some_0);
            }
            Some(out)
        },
        Some(names) => {
            let ghost nv = names@.map_values(|s: String| s@);
            let mut out: Vec<GithubModName> = Vec::new();
            let mut i: usize = 0;
            while i < names.len()
                invariant
                    i <= names@.len(),
                    full_name@.contains('/'),
                    names_opt == Option::Some(*names),
                    nv == names@.map_values(|s: String| s@),
                    forall|k: int| 0 <= k < i ==> spec_subdirectory_name_ok(#[trigger] nv[k]),
                    out@.len() == i,
                    forall|k: int|
                        0 <= k < i ==> (#[trigger] out@[k])@ == (ModNameView {
                            owner: spec_owner_of(full_name@),
                            repo: spec_repo_of(full_name@),
                            subpath: Option::Some(nv[k]),
                            weekly_update_from_crowdin: match weekly {
                                Option::Some(b) => b,
                                Option::None => true,
                            },
                        }),
                decreases names@.len() - i,
            {
                if !check_subdirectory_name(names[i].as_str()) {
                    proof {
                        assert(!spec_subdirectory_name_ok(nv[i as int]));
                    }
                    return None;
                }
                out.push(GithubModName::new(full_name, Some(names[i].clone()), weekly));
                i = i + 1;
            }
            proof {
                let finished = spec_mod_names_finish(full_name@, Option::Some(nv), weekly);
                assert(finished is Some);
                assert(out@.map_values(|m: GithubModName| m@) =~= finished->Some_0);
            }
            Some(out)
        },
    }
}

/// Parses a configuration text under the older model; `None` on every input
/// on which the resolution fails.
pub fn try_parse_github_mod_names_json(full_name: &str, json: &str) -> (r: Option<
    Vec<GithubModName>>)
    requires
        full_name@.contains('/'),
    ensures
        match r {
            Option::Some(ms) => spec_parse_mod_names(full_name@, json_of(json@)) == Option::Some(
                ms@.map_values(|m: GithubModName| m@),
            ),
            Option::None => spec_parse_mod_names(full_name@, json_of(json@)) is None,
        },
{
    let resolvable = match parse_json(json) {
        Some(v) => mod_names_from_json(full_name, &v).is_some(),
        None => false,
    };
    if resolvable {
        Some(parse_github_mod_names_json(full_name, json))
    } else {
        None
    }
}

/// Parses a configuration text under the older model, on inputs where the
/// resolution is known to succeed.
pub fn parse_github_mod_names_json(full_name: &str, json: &str) -> (r: Vec<GithubModName>)
    requires
        full_name@.contains('/'),
        spec_parse_mod_names(full_name@, json_of(json@)) is Some,
    ensures
        spec_parse_mod_names(full_name@, json_of(json@)) == Option::Some(
            r@.map_values(|m: GithubModName| m@),
        ),
{
    let parsed = parse_json(json);
    match parsed {
        Some(v) => {
            match mod_names_from_json(full_name, &v) {
                Some(r) => r,
                None => {
                    proof {
                        assert(false);
                    }
                    vstd::pervasive::unreached()
                },
            }
        },
        None => {
            proof {
                assert(false);
            }
            vstd::pervasive::unreached()
        },
    }
}

} // verus!
