//! Parsing of the repository configuration file.
//!
//! The file sits in the root of the tracked repository and comes in two
//! shapes, kept for backward compatibility:
//!
//! ```json
//! ["mod1", "mod2"]
//! ```
//!
//! or
//!
//! ```json
//! {
//!   "mods": ["mod1", "mod2"],
//!   "weekly_update_from_crowdin": false,
//!   "branch": "dev"
//! }
//! ```
//!
//! where each entry of `"mods"` may also be an object
//! `{"localePath": "custom/path", "crowdinName": "Foo"}`.  Whatever the
//! shape, parsing resolves it into one [`GithubRepoInfo`]; malformed input,
//! duplicate platform keys and an empty mod list yield `None`, never a
//! panic.

use vstd::prelude::*;

use crate::github_repo_info::{GithubModInfo, GithubRepoInfo, ModInfoView, RepoInfoView,
    spec_new_custom, spec_owner_of, spec_repo_of};
use crate::json::{Json, json_of, parse_json};
use crate::text::str_eq;

verus! {

/// The value of the first object field with this key, when there is one.
pub open spec fn spec_obj_get(fields: Seq<(String, Json)>, key: Seq<char>) -> Option<Json>
    decreases fields.len(),
{
    if fields.len() == 0 {
        Option::None
    } else if fields[0].0@ == key {
        Option::Some(fields[0].1)
    } else {
        spec_obj_get(fields.drop_first(), key)
    }
}

/// The texts of a JSON array whose elements are all strings; `None` as soon
/// as one element is something else.
pub open spec fn spec_string_array(items: Seq<Json>) -> Option<Seq<Seq<char>>>
    decreases items.len(),
{
    if items.len() == 0 {
        Option::Some(Seq::empty())
    } else {
        match items[0] {
            Json::Str(v) => match spec_string_array(items.drop_first()) {
                Option::Some(rest) => Option::Some(seq![v@] + rest),
                Option::None => Option::None,
            },
            _ => Option::None,
        }
    }
}

/// One configured mod entry: an object with string fields `localePath` and
/// `crowdinName`.
pub open spec fn spec_mod_entry(v: Json) -> Option<(Seq<char>, Seq<char>)> {
    match v {
        Json::Obj(fields) => match (
            spec_obj_get(fields@, "localePath"@),
            spec_obj_get(fields@, "crowdinName"@),
        ) {
            (Option::Some(Json::Str(lp)), Option::Some(Json::Str(cn))) => Option::Some(
                (lp@, cn@),
            ),
            _ => Option::None,
        },
        _ => Option::None,
    }
}

/// The entries of a JSON array whose elements are all mod objects.
pub open spec fn spec_mod_entries(items: Seq<Json>) -> Option<Seq<(Seq<char>, Seq<char>)>>
    decreases items.len(),
{
    if items.len() == 0 {
        Option::Some(Seq::empty())
    } else {
        match spec_mod_entry(items[0]) {
            Option::Some(e) => match spec_mod_entries(items.drop_first()) {
                Option::Some(rest) => Option::Some(seq![e] + rest),
                Option::None => Option::None,
            },
            Option::None => Option::None,
        }
    }
}

/// Mathematical image of a [`ConfigMods`] value.
#[verifier::ext_equal]
pub enum ConfigModsView {
    Short(Seq<Seq<char>>),
    Full(Seq<(Seq<char>, Seq<char>)>),
}

/// The `mods` list of a configuration: either plain subdirectory names or
/// full entries with locale path and platform key.
#[derive(Debug, Clone, PartialEq, Eq)]
pub enum ConfigMods {
    Short(Vec<String>),
    Full(Vec<ConfigMod>),
}

/// One full mod entry of a configuration.
#[derive(Debug, Clone, PartialEq, Eq)]
pub struct ConfigMod {
    pub locale_path: String,
    pub crowdin_name: String,
}

impl View for ConfigMods {
    type V = ConfigModsView;

    open spec fn view(&self) -> ConfigModsView {
        match self {
            ConfigMods::Short(names) => ConfigModsView::Short(
                names@.map_values(|s: String| s@),
            ),
            ConfigMods::Full(entries) => ConfigModsView::Full(
                entries@.map_values(|m: ConfigMod| (m.locale_path@, m.crowdin_name@)),
            ),
        }
    }
}

/// Mathematical image of a [`Config`] value.
#[verifier::ext_equal]
pub struct ConfigView {
    pub mods: Option<ConfigModsView>,
    pub weekly_update_from_crowdin: Option<bool>,
    pub branch: Option<Seq<char>>,
}

/// A configuration file after shape resolution, before validation.
#[derive(Debug, Clone, PartialEq, Eq)]
pub struct Config {
    pub mods: Option<ConfigMods>,
    pub weekly_update_from_crowdin: Option<bool>,
    pub branch: Option<String>,
}

impl View for Config {
    type V = ConfigView;

    open spec fn view(&self) -> ConfigView {
        ConfigView {
            mods: match self.mods {
                Option::Some(m) => Option::Some(m@),
                Option::None => Option::None,
            },
            weekly_update_from_crowdin: self.weekly_update_from_crowdin,
            branch: match self.branch {
                Option::Some(b) => Option::Some(b@),
                Option::None => Option::None,
            },
        }
    }
}

/// The `mods` value of the object shape: an array of names or of full
/// entries.
pub open spec fn spec_mods_value(v: Json) -> Option<ConfigModsView> {
    match v {
        Json::Arr(items) => match spec_string_array(items@) {
            Option::Some(names) => Option::Some(ConfigModsView::Short(names)),
            Option::None => match spec_mod_entries(items@) {
                Option::Some(es) => Option::Some(ConfigModsView::Full(es)),
                Option::None => Option::None,
            },
        },
        _ => Option::None,
    }
}

/// Shape resolution of a parsed configuration: a bare array of names is the
/// legacy shape; an object may carry `mods`, `weekly_update_from_crowdin`
/// and `branch`, each optional and each of a fixed type; anything else is
/// malformed.
pub open spec fn spec_parse_config(v: Json) -> Option<ConfigView> {
    match v {
        Json::Arr(items) => match spec_string_array(items@) {
            Option::Some(names) => Option::Some(
                ConfigView {
                    mods: Option::Some(ConfigModsView::Short(names)),
                    weekly_update_from_crowdin: Option::None,
                    branch: Option::None,
                },
            ),
            Option::None => Option::None,
        },
        Json::Obj(fields) => {
            let mods = match spec_obj_get(fields@, "mods"@) {
                Option::None => Option::Some(Option::None),
                Option::Some(Json::Null) => Option::Some(Option::None),
                Option::Some(m) => match spec_mods_value(m) {
                    Option::Some(cm) => Option::Some(Option::Some(cm)),
                    Option::None => Option::None,
                },
            };
            let weekly = match spec_obj_get(fields@, "weekly_update_from_crowdin"@) {
                Option::None => Option::Some(Option::None),
                Option::Some(Json::Null) => Option::Some(Option::None),
                Option::Some(Json::Bool(b)) => Option::Some(Option::Some(b)),
                Option::Some(_) => Option::None,
            };
            let branch = match spec_obj_get(fields@, "branch"@) {
                Option::None => Option::Some(Option::None),
                Option::Some(Json::Null) => Option::Some(Option::None),
                Option::Some(Json::Str(s)) => Option::Some(Option::Some(s@)),
                Option::Some(_) => Option::None,
            };
            match (mods, weekly, branch) {
                (Option::Some(m), Option::Some(w), Option::Some(b)) => Option::Some(
                    ConfigView { mods: m, weekly_update_from_crowdin: w, branch: b },
                ),
                _ => Option::None,
            }
        },
        _ => Option::None,
    }
}

/// The default mod of a repository: locale directory at the root, default
/// platform name.
pub open spec fn spec_root_mod(full: Seq<char>) -> ModInfoView {
    ModInfoView {
        owner: spec_owner_of(full),
        repo: spec_repo_of(full),
        locale_path: "locale"@,
        crowdin_name: Option::None,
    }
}

/// Conversion of short names into mods, each validated; one invalid name
/// rejects the whole list.
pub open spec fn spec_convert_short(full: Seq<char>, names: Seq<Seq<char>>) -> Option<
    Seq<ModInfoView>>
    decreases names.len(),
{
    if names.len() == 0 {
        Option::Some(Seq::empty())
    } else {
        match spec_new_custom(full, Option::None, names[0]) {
            Option::Some(m) => match spec_convert_short(full, names.drop_first()) {
                Option::Some(rest) => Option::Some(seq![m] + rest),
                Option::None => Option::None,
            },
            Option::None => Option::None,
        }
    }
}

/// Conversion of full entries into mods, each validated; one invalid entry
/// rejects the whole list.
pub open spec fn spec_convert_full(full: Seq<char>, entries: Seq<(Seq<char>, Seq<char>)>) -> Option<
    Seq<ModInfoView>>
    decreases entries.len(),
{
    if entries.len() == 0 {
        Option::Some(Seq::empty())
    } else {
        match spec_new_custom(full, Option::Some(entries[0].0), entries[0].1) {
            Option::Some(m) => match spec_convert_full(full, entries.drop_first()) {
                Option::Some(rest) => Option::Some(seq![m] + rest),
                Option::None => Option::None,
            },
            Option::None => Option::None,
        }
    }
}

/// What the configured `mods` list resolves to: a missing list means one
/// default mod covering the whole repository.
pub open spec fn spec_convert_mods(full: Seq<char>, mods: Option<ConfigModsView>) -> Option<
    Seq<ModInfoView>> {
    match mods {
        Option::None => Option::Some(seq![spec_root_mod(full)]),
        Option::Some(ConfigModsView::Short(names)) => spec_convert_short(full, names),
        Option::Some(ConfigModsView::Full(entries)) => spec_convert_full(full, entries),
    }
}

/// No two mods share a platform key; two mods with the default name also
/// collide.
pub open spec fn spec_no_duplicate_crowdin_names(mods: Seq<ModInfoView>) -> bool {
    forall|i: int, j: int|
        0 <= i < j < mods.len() ==> (#[trigger] mods[i]).crowdin_name != (
        #[trigger] mods[j]).crowdin_name
}

/// The repository description that a parsed configuration resolves to:
/// shape resolution, mod conversion, duplicate check, and rejection of an
/// empty mod list.
pub open spec fn spec_repo_info_from_json(full: Seq<char>, v: Json) -> Option<RepoInfoView> {
    match spec_parse_config(v) {
        Option::None => Option::None,
        Option::Some(cfg) => match spec_convert_mods(full, cfg.mods) {
            Option::None => Option::None,
            Option::Some(mods) => if !spec_no_duplicate_crowdin_names(mods) {
                Option::None
            } else if mods.len() == 0 {
                Option::None
            } else {
                Option::Some(
                    RepoInfoView {
                        full_name: full,
                        mods,
                        weekly_update_from_crowdin: match cfg.weekly_update_from_crowdin {
                            Option::Some(b) => b,
                            Option::None => true,
                        },
                        branch: cfg.branch,
                    },
                )
            },
        },
    }
}

/// What parsing a configuration text yields: `None` for malformed JSON and
/// for every validation failure.
pub open spec fn spec_parse_repo_info(full: Seq<char>, j: Option<Json>) -> Option<RepoInfoView> {
    match j {
        Option::None => Option::None,
        Option::Some(v) => spec_repo_info_from_json(full, v),
    }
}

/// Looks up the first object field with this key.
pub fn obj_get<'a>(fields: &'a Vec<(String, Json)>, key: &str) -> (r: Option<&'a Json>)
    ensures
        match r {
            Option::Some(j) => spec_obj_get(fields@, key@) == Option::Some(*j),
            Option::None => spec_obj_get(fields@, key@) is None,
        },
{
    let mut i: usize = 0;
    proof {
        assert(fields@.skip(0) =~= fields@);
    }
    while i < fields.len()
        invariant
            i <= fields@.len(),
            spec_obj_get(fields@.skip(i as int), key@) == spec_obj_get(fields@, key@),
        decreases fields@.len() - i,
    {
        if str_eq(fields[i].0.as_str(), key) {
            proof {
                assert(fields@.skip(i as int)[0] == fields@[i as int]);
            }
            return Some(&fields[i].1);
        }
        proof {
            assert(fields@.skip(i as int)[0] == fields@[i as int]);
            assert(fields@.skip(i as int).drop_first() =~= fields@.skip(i as int + 1));
        }
        i = i + 1;
    }
    proof {
        assert(fields@.skip(i as int).len() == 0);
    }
    None
}

/// Collects the texts of an all-string JSON array.
pub fn string_array(items: &Vec<Json>) -> (r: Option<Vec<String>>)
    ensures
        match r {
            Option::Some(names) => spec_string_array(items@) == Option::Some(
                names@.map_values(|s: String| s@),
            ),
            Option::None => spec_string_array(items@) is None,
        },
{
    let mut acc: Vec<String> = Vec::new();
    let mut i: usize = 0;
    proof {
        assert(items@.skip(0) =~= items@);
        assert(acc@.map_values(|s: String| s@) =~= Seq::<Seq<char>>::empty());
        assert(Seq::<Seq<char>>::empty() + spec_string_array(items@)->Some_0
            =~= spec_string_array(items@)->Some_0);
    }
    while i < items.len()
        invariant
            i <= items@.len(),
            match spec_string_array(items@.skip(i as int)) {
                Option::Some(rest) => spec_string_array(items@) == Option::Some(
                    acc@.map_values(|s: String| s@) + rest,
                ),
                Option::None => spec_string_array(items@) is None,
            },
        decreases items@.len() - i,
    {
        proof {
            assert(items@.skip(i as int)[0] == items@[i as int]);
            assert(items@.skip(i as int).drop_first() =~= items@.skip(i as int + 1));
        }
        match &items[i] {
            Json::Str(s) => {
                let ghost pre = acc@;
                acc.push(s.clone());
                i = i + 1;
                proof {
                    let f = |t: String| t@;
                    assert(acc@.map_values(f) =~= pre.map_values(f).push(s@));
                    match spec_string_array(items@.skip(i as int)) {
                        Option::Some(rest) => {
                            assert(pre.map_values(f) + (seq![s@] + rest) =~= acc@.map_values(f)
                                + rest);
                        },
                        Option::None => {},
                    }
                }
            },
            _ => {
                return None;
            },
        }
    }
    proof {
        assert(items@.skip(i as int) =~= Seq::<Json>::empty());
        assert(acc@.map_values(|s: String| s@) + Seq::<Seq<char>>::empty() =~= acc@.map_values(
            |s: String| s@,
        ));
    }
    Some(acc)
}

/// Collects the entries of an all-mod-object JSON array.
pub fn mod_entries(items: &Vec<Json>) -> (r: Option<Vec<ConfigMod>>)
    ensures
        match r {
            Option::Some(entries) => spec_mod_entries(items@) == Option::Some(
                entries@.map_values(|m: ConfigMod| (m.locale_path@, m.crowdin_name@)),
            ),
            Option::None => spec_mod_entries(items@) is None,
        },
{
    let mut acc: Vec<ConfigMod> = Vec::new();
    let mut i: usize = 0;
    proof {
        assert(items@.skip(0) =~= items@);
        assert(acc@.map_values(|m: ConfigMod| (m.locale_path@, m.crowdin_name@)) =~= Seq::<(Seq<char>, Seq<char>)>::empty());
        assert(Seq::<(Seq<char>, Seq<char>)>::empty() + spec_mod_entries(items@)->Some_0
            =~= spec_mod_entries(items@)->Some_0);
    }
    while i < items.len()
        invariant
            i <= items@.len(),
            match spec_mod_entries(items@.skip(i as int)) {
                Option::Some(rest) => spec_mod_entries(items@) == Option::Some(
                    acc@.map_values(|m: ConfigMod| (m.locale_path@, m.crowdin_name@)) + rest,
                ),
                Option::None => spec_mod_entries(items@) is None,
            },
        decreases items@.len() - i,
    {
        proof {
            assert(items@.skip(i as int)[0] == items@[i as int]);
            assert(items@.skip(i as int).drop_first() =~= items@.skip(i as int + 1));
        }
        match mod_entry(&items[i]) {
            Some(e) => {
                let ghost pre = acc@;
                let ghost ev = (e.locale_path@, e.crowdin_name@);
                acc.push(e);
                i = i + 1;
                proof {
                    assert(acc@.map_values(|m: ConfigMod| (m.locale_path@, m.crowdin_name@)) =~= pre.map_values(|m: ConfigMod| (m.locale_path@, m.crowdin_name@)).push(ev));
                    match spec_mod_entries(items@.skip(i as int)) {
                        Option::Some(rest) => {
                            assert(pre.map_values(|m: ConfigMod| (m.locale_path@, m.crowdin_name@)) + (seq![ev] + rest) =~= acc@.map_values(|m: ConfigMod| (m.locale_path@, m.crowdin_name@))
                                + rest);
                        },
                        Option::None => {},
                    }
                }
            },
            None => {
                return None;
            },
        }
    }
    proof {
        assert(items@.skip(i as int) =~= Seq::<Json>::empty());
        assert(acc@.map_values(|m: ConfigMod| (m.locale_path@, m.crowdin_name@)) + Seq::<(
            Seq<char>,
            Seq<char>,
        )>::empty() =~= acc@.map_values(|m: ConfigMod| (m.locale_path@, m.crowdin_name@)));
    }
    Some(acc)
}

/// Reads one configured mod entry: an object with string fields
/// `localePath` and `crowdinName`.
pub fn mod_entry(v: &Json) -> (r: Option<ConfigMod>)
    ensures
        match r {
            Option::Some(m) => spec_mod_entry(*v) == Option::Some(
                (m.locale_path@, m.crowdin_name@),
            ),
            Option::None => spec_mod_entry(*v) is None,
        },
{
    match v {
        Json::Obj(fields) => {
            let lp = obj_get(fields, "localePath");
            let cn = obj_get(fields, "crowdinName");
            match (lp, cn) {
                (Some(Json::Str(l)), Some(Json::Str(c))) => Some(
                    ConfigMod { locale_path: l.clone(), crowdin_name: c.clone() },
                ),
                _ => None,
            }
        },
        _ => None,
    }
}

/// Resolves the shape of a parsed configuration into a [`Config`].
pub fn parse_config(v: &Json) -> (r: Option<Config>)
    ensures
        match r {
            Option::Some(cfg) => spec_parse_config(*v) == Option::Some(cfg@),
            Option::None => spec_parse_config(*v) is None,
        },
{
    match v {
        Json::Arr(items) => match string_array(items) {
            Some(names) => Some(
                Config {
                    mods: Some(ConfigMods::Short(names)),
                    weekly_update_from_crowdin: None,
                    branch: None,
                },
            ),
            None => None,
        },
        Json::Obj(fields) => {
            let mods: Option<ConfigMods> = match obj_get(fields, "mods") {
                None => None,
                Some(Json::Null) => None,
                Some(m) => match mods_value(m) {
                    Some(cm) => Some(cm),
                    None => {
                        return None;
                    },
                },
            };
            let weekly: Option<bool> = match obj_get(fields, "weekly_update_from_crowdin") {
                None => None,
                Some(Json::Null) => None,
                Some(Json::Bool(b)) => Some(*b),
                Some(_) => {
                    return None;
                },
            };
            let branch: Option<String> = match obj_get(fields, "branch") {
                None => None,
                Some(Json::Null) => None,
                Some(Json::Str(s)) => Some(s.clone()),
                Some(_) => {
                    return None;
                },
            };
            Some(Config { mods, weekly_update_from_crowdin: weekly, branch })
        },
        _ => None,
    }
}

/// Reads the `mods` value of the object shape.
pub fn mods_value(v: &Json) -> (r: Option<ConfigMods>)
    ensures
        match r {
            Option::Some(cm) => spec_mods_value(*v) == Option::Some(cm@),
            Option::None => spec_mods_value(*v) is None,
        },
{
    match v {
        Json::Arr(items) => match string_array(items) {
            Some(names) => Some(ConfigMods::Short(names)),
            None => match mod_entries(items) {
                Some(es) => Some(ConfigMods::Full(es)),
                None => None,
            },
        },
        _ => None,
    }
}

/// Converts the configured mod list into validated mods; a missing list
/// yields the single default mod, and one invalid entry rejects the whole
/// list.
pub fn convert_mods(full_name: &str, mods: Option<ConfigMods>) -> (r: Option<Vec<GithubModInfo>>)
    requires
        full_name@.contains('/'),
    ensures
        match r {
            Option::Some(ms) => spec_convert_mods(
                full_name@,
                match mods {
                    Option::Some(cm) => Option::Some(cm@),
                    Option::None => Option::None,
                },
            ) == Option::Some(ms@.map_values(|m: GithubModInfo| m@)),
            Option::None => spec_convert_mods(
                full_name@,
                match mods {
                    Option::Some(cm) => Option::Some(cm@),
                    Option::None => Option::None,
                },
            ) is None,
        },
{
    match &mods {
        None => {
            let mut out: Vec<GithubModInfo> = Vec::new();
            out.push(GithubModInfo::new_root(full_name));
            proof {
                assert(out@.map_values(|m: GithubModInfo| m@) =~= seq![spec_root_mod(full_name@)]);
            }
            Some(out)
        },
        Some(ConfigMods::Short(names)) => {
            let ghost nv = names@.map_values(|s: String| s@);
            let mut out: Vec<GithubModInfo> = Vec::new();
            let mut i: usize = 0;
            proof {
                assert(nv.skip(0) =~= nv);
                assert(out@.map_values(|m: GithubModInfo| m@) =~= Seq::<ModInfoView>::empty());
                assert(Seq::<ModInfoView>::empty() + spec_convert_short(full_name@, nv)->Some_0
                    =~= spec_convert_short(full_name@, nv)->Some_0);
            }
            while i < names.len()
                invariant
                    i <= names@.len(),
                    full_name@.contains('/'),
                    mods == Option::Some(ConfigMods::Short(*names)),
                    nv == names@.map_values(|s: String| s@),
                    match spec_convert_short(full_name@, nv.skip(i as int)) {
                        Option::Some(rest) => spec_convert_short(full_name@, nv) == Option::Some(
                            out@.map_values(|m: GithubModInfo| m@) + rest,
                        ),
                        Option::None => spec_convert_short(full_name@, nv) is None,
                    },
                decreases names@.len() - i,
            {
                proof {
                    assert(nv.skip(i as int)[0] == nv[i as int]);
                    assert(nv.skip(i as int).drop_first() =~= nv.skip(i as int + 1));
                }
                let ghost name_i = nv[i as int];
                match GithubModInfo::new_custom(full_name, None, names[i].clone()) {
                    Some(m) => {
                        let ghost pre = out@;
                        let ghost mv = m@;
                        out.push(m);
                        i = i + 1;
                        proof {
                            assert(out@.map_values(|m: GithubModInfo| m@) =~= pre.map_values(|m: GithubModInfo| m@).push(mv));
                            match spec_convert_short(full_name@, nv.skip(i as int)) {
                                Option::Some(rest) => {
                                    assert(pre.map_values(|m: GithubModInfo| m@) + (seq![mv] + rest)
                                        =~= out@.map_values(|m: GithubModInfo| m@) + rest);
                                },
                                Option::None => {},
                            }
                        }
                    },
                    None => {
                        proof {
                            assert(name_i == names@[i as int]@);
                            assert(spec_convert_short(full_name@, nv.skip(i as int)) is None);
                            assert(spec_convert_short(full_name@, nv) is None);
                            match mods {
                                Option::Some(cm) => {
                                    assert(cm@ is Short);
                                    assert(cm@->Short_0 =~= nv);
                                    assert(cm@ == ConfigModsView::Short(nv));
                                },
                                Option::None => {
                                    assert(false);
                                },
                            }
                        }
                        return None;
                    },
                }
            }
            proof {
                assert(nv.skip(i as int) =~= Seq::<Seq<char>>::empty());
                assert(out@.map_values(|m: GithubModInfo| m@) + Seq::<ModInfoView>::empty() =~= out@.map_values(|m: GithubModInfo| m@));
            }
            Some(out)
        },
        Some(ConfigMods::Full(entries)) => {
            let ghost ev = entries@.map_values(|m: ConfigMod| (m.locale_path@, m.crowdin_name@));
            let mut out: Vec<GithubModInfo> = Vec::new();
            let mut i: usize = 0;
            proof {
                assert(ev.skip(0) =~= ev);
                assert(out@.map_values(|m: GithubModInfo| m@) =~= Seq::<ModInfoView>::empty());
                assert(Seq::<ModInfoView>::empty() + spec_convert_full(full_name@, ev)->Some_0
                    =~= spec_convert_full(full_name@, ev)->Some_0);
            }
            while i < entries.len()
                invariant
                    i <= entries@.len(),
                    full_name@.contains('/'),
                    mods == Option::Some(ConfigMods::Full(*entries)),
                    ev == entries@.map_values(|m: ConfigMod| (m.locale_path@, m.crowdin_name@)),
                    match spec_convert_full(full_name@, ev.skip(i as int)) {
                        Option::Some(rest) => spec_convert_full(full_name@, ev) == Option::Some(
                            out@.map_values(|m: GithubModInfo| m@) + rest,
                        ),
                        Option::None => spec_convert_full(full_name@, ev) is None,
                    },
                decreases entries@.len() - i,
            {
                proof {
                    assert(ev.skip(i as int)[0] == ev[i as int]);
                    assert(ev.skip(i as int).drop_first() =~= ev.skip(i as int + 1));
                }
                let ghost entry_i = ev[i as int];
                match GithubModInfo::new_custom(
                    full_name,
                    Some(entries[i].locale_path.clone()),
                    entries[i].crowdin_name.clone(),
                ) {
                    Some(m) => {
                        let ghost pre = out@;
                        let ghost mv = m@;
                        out.push(m);
                        i = i + 1;
                        proof {
                            assert(out@.map_values(|m: GithubModInfo| m@) =~= pre.map_values(|m: GithubModInfo| m@).push(mv));
                            match spec_convert_full(full_name@, ev.skip(i as int)) {
                                Option::Some(rest) => {
                                    assert(pre.map_values(|m: GithubModInfo| m@) + (seq![mv] + rest)
                                        =~= out@.map_values(|m: GithubModInfo| m@) + rest);
                                },
                                Option::None => {},
                            }
                        }
                    },
                    None => {
                        proof {
                            assert(entry_i == (entries@[i as int].locale_path@,
                                entries@[i as int].crowdin_name@));
                            assert(spec_convert_full(full_name@, ev.skip(i as int)) is None);
                            assert(spec_convert_full(full_name@, ev) is None);
                            match mods {
                                Option::Some(cm) => {
                                    assert(cm@ is Full);
                                    assert(cm@->Full_0 =~= ev);
                                    assert(cm@ == ConfigModsView::Full(ev));
                                },
                                Option::None => {
                                    assert(false);
                                },
                            }
                        }
                        return None;
                    },
                }
            }
            proof {
                assert(ev.skip(i as int) =~= Seq::<(Seq<char>, Seq<char>)>::empty());
                assert(out@.map_values(|m: GithubModInfo| m@) + Seq::<ModInfoView>::empty() =~= out@.map_values(|m: GithubModInfo| m@));
            }
            Some(out)
        },
    }
}

/// Whether no two mods share a platform key.
pub fn check_no_duplicates(mods: &Vec<GithubModInfo>) -> (r: bool)
    ensures
        r == spec_no_duplicate_crowdin_names(mods@.map_values(|m: GithubModInfo| m@)),
{
    let ghost mv = mods@.map_values(|m: GithubModInfo| m@);
    let mut i: usize = 0;
    while i < mods.len()
        invariant
            i <= mods@.len(),
            mv == mods@.map_values(|m: GithubModInfo| m@),
            forall|a: int, b: int| 0 <= a < b < mv.len() && a < i ==> (#[trigger] mv[a]).crowdin_name
                != (#[trigger] mv[b]).crowdin_name,
        decreases mods@.len() - i,
    {
        let mut j: usize = i + 1;
        while j < mods.len()
            invariant
                i < j <= mods@.len(),
                mv == mods@.map_values(|m: GithubModInfo| m@),
                forall|b: int| i < b < j ==> (#[trigger] mv[b]).crowdin_name != mv[i as int]
                    .crowdin_name,
            decreases mods@.len() - j,
        {
            let same = match (&mods[i].crowdin_name, &mods[j].crowdin_name) {
                (Some(a), Some(b)) => str_eq(a.as_str(), b.as_str()),
                (None, None) => true,
                _ => false,
            };
            proof {
                assert(mv[i as int] == mods@[i as int]@);
                assert(mv[j as int] == mods@[j as int]@);
            }
            if same {
                proof {
                    assert(mv[i as int].crowdin_name == mv[j as int].crowdin_name);
                }
                return false;
            }
            j = j + 1;
        }
        i = i + 1;
    }
    true
}

/// Parses a repository configuration text into a validated repository
/// description: both accepted JSON shapes resolve to the same model, and
/// malformed input, an invalid mod, duplicate platform keys or an empty mod
/// list yield `None`.
pub fn parse_github_repo_info_json(full_name: &str, json: &str) -> (r: Option<GithubRepoInfo>)
    requires
        full_name@.contains('/'),
    ensures
        match r {
            Option::Some(ri) => spec_parse_repo_info(full_name@, json_of(json@)) == Option::Some(
                ri@,
            ),
            Option::None => spec_parse_repo_info(full_name@, json_of(json@)) is None,
        },
{
    let parsed = match parse_json(json) {
        Some(v) => v,
        None => {
            return None;
        },
    };
    let config = match parse_config(&parsed) {
        Some(c) => c,
        None => {
            return None;
        },
    };
    let mods = match convert_mods(full_name, config.mods) {
        Some(ms) => ms,
        None => {
            return None;
        },
    };
    if !check_no_duplicates(&mods) {
        return None;
    }
    GithubRepoInfo::new_from_config(
        full_name,
        mods,
        config.weekly_update_from_crowdin,
        config.branch,
    )
}

} // verus!
