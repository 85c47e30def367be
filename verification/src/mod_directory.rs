//! The locale directory of one mod, as inspected from a repository clone.
//!
//! The tree is held as plain values: the direct subdirectories of the locale
//! directory, each with its regular files and their contents.  The `en`
//! subdirectory holds the English source strings; every other subdirectory
//! whose name resolves to a supported language code holds translations.

use vstd::prelude::*;

use crate::crowdin::spec_normalize_language_code;
use crate::crowdin::normalize_language_code;
use crate::github_repo_info::{GithubModInfo, ModInfoView, contains_string};
use crate::text::str_eq;

verus! {

/// Mathematical image of a [`FileEntry`].
#[verifier::ext_equal]
pub struct FileV {
    pub name: Seq<char>,
    pub content: Seq<char>,
}

/// One regular file: its name and its content.
#[derive(Debug, Clone, PartialEq, Eq)]
pub struct FileEntry {
    pub name: String,
    pub content: String,
}

impl View for FileEntry {
    type V = FileV;

    open spec fn view(&self) -> FileV {
        FileV { name: self.name@, content: self.content@ }
    }
}

/// Mathematical image of a [`Subdir`].
#[verifier::ext_equal]
pub struct SubdirV {
    pub name: Seq<char>,
    pub files: Seq<FileV>,
}

/// One direct subdirectory of a locale directory, with its regular files.
#[derive(Debug, Clone, PartialEq, Eq)]
pub struct Subdir {
    pub name: String,
    pub files: Vec<FileEntry>,
}

impl View for Subdir {
    type V = SubdirV;

    open spec fn view(&self) -> SubdirV {
        SubdirV { name: self.name@, files: self.files@.map_values(|f: FileEntry| f@) }
    }
}

/// The index of the first subdirectory with this name, or -1.
pub open spec fn spec_subdir_index(dirs: Seq<SubdirV>, name: Seq<char>) -> int
    decreases dirs.len(),
{
    if dirs.len() == 0 {
        -1
    } else if dirs[0].name == name {
        0
    } else {
        let r = spec_subdir_index(dirs.drop_first(), name);
        if r < 0 {
            -1
        } else {
            r + 1
        }
    }
}

/// The index of the first file with this name, or -1.
pub open spec fn spec_file_index(files: Seq<FileV>, name: Seq<char>) -> int
    decreases files.len(),
{
    if files.len() == 0 {
        -1
    } else if files[0].name == name {
        0
    } else {
        let r = spec_file_index(files.drop_first(), name);
        if r < 0 {
            -1
        } else {
            r + 1
        }
    }
}

/// Whether a file name carries the repository locale extension.
pub open spec fn spec_is_cfg_name(name: Seq<char>) -> bool {
    name.len() >= 4 && name.subrange(name.len() - 4, name.len() as int) == ".cfg"@
}

/// The names of the `.cfg` files among these files, in order.
pub open spec fn spec_cfg_names(files: Seq<FileV>) -> Seq<Seq<char>>
    decreases files.len(),
{
    if files.len() == 0 {
        Seq::empty()
    } else {
        let rest = spec_cfg_names(files.drop_first());
        if spec_is_cfg_name(files[0].name) {
            seq![files[0].name] + rest
        } else {
            rest
        }
    }
}

/// Whether the tree has an `en` subdirectory.
pub open spec fn spec_has_en(dirs: Seq<SubdirV>) -> bool {
    spec_subdir_index(dirs, "en"@) >= 0
}

/// The names of all English source files: every regular file of the `en`
/// subdirectory, none when it is absent.
pub open spec fn spec_en_names(dirs: Seq<SubdirV>) -> Seq<Seq<char>> {
    spec_en_files(dirs).map_values(|f: FileV| f.name)
}

/// All files of the `en` subdirectory, none when it is absent.
pub open spec fn spec_en_files(dirs: Seq<SubdirV>) -> Seq<FileV> {
    let e = spec_subdir_index(dirs, "en"@);
    if e >= 0 {
        dirs[e].files
    } else {
        Seq::empty()
    }
}

/// Whether a subdirectory name resolves to a supported language other than
/// the source language.
pub open spec fn spec_is_localization_dir(name: Seq<char>, codes: Seq<Seq<char>>) -> bool {
    &&& spec_normalize_language_code(name) != "en"@
    &&& codes.contains(spec_normalize_language_code(name))
}

/// The language subdirectories: each subdirectory whose normalized name is a
/// supported code, as the pair of the code and the folder name.
pub open spec fn spec_language_directories(dirs: Seq<SubdirV>, codes: Seq<Seq<char>>) -> Seq<
    (Seq<char>, Seq<char>)>
    decreases dirs.len(),
{
    if dirs.len() == 0 {
        Seq::empty()
    } else {
        let rest = spec_language_directories(dirs.drop_first(), codes);
        if codes.contains(spec_normalize_language_code(dirs[0].name)) {
            seq![(spec_normalize_language_code(dirs[0].name), dirs[0].name)] + rest
        } else {
            rest
        }
    }
}

/// The localizations: for each language subdirectory other than `en`, the
/// normalized code and the names of its `.cfg` files.
pub open spec fn spec_localizations(dirs: Seq<SubdirV>, codes: Seq<Seq<char>>) -> Seq<
    (Seq<char>, Seq<Seq<char>>)>
    decreases dirs.len(),
{
    if dirs.len() == 0 {
        Seq::empty()
    } else {
        let rest = spec_localizations(dirs.drop_first(), codes);
        if spec_is_localization_dir(dirs[0].name, codes) {
            seq![(spec_normalize_language_code(dirs[0].name), spec_cfg_names(dirs[0].files))]
                + rest
        } else {
            rest
        }
    }
}

/// Every translated file has a same-named English counterpart: in each
/// localization subdirectory, each `.cfg` file's name appears among the
/// files of `en`.
pub open spec fn spec_translations_match(dirs: Seq<SubdirV>, codes: Seq<Seq<char>>) -> bool {
    forall|d: int, f: int|
        0 <= d < dirs.len() && spec_is_localization_dir((#[trigger] dirs[d]).name, codes) && 0 <= f
            < dirs[d].files.len() && spec_is_cfg_name((#[trigger] dirs[d].files[f]).name)
            ==> spec_file_index(spec_en_files(dirs), dirs[d].files[f].name) >= 0
}

/// The locale directory of one mod inside a repository clone.
#[derive(Debug, Clone, PartialEq, Eq)]
pub struct ModDirectory {
    /// Where the locale directory lives, kept for reporting.
    pub locale_path: String,
    pub mod_info: GithubModInfo,
    /// The direct subdirectories of the locale directory.
    pub subdirs: Vec<Subdir>,
}

/// Mathematical image of a [`ModDirectory`].
#[verifier::ext_equal]
pub struct ModDirectoryV {
    pub locale_path: Seq<char>,
    pub mod_info: ModInfoView,
    pub subdirs: Seq<SubdirV>,
}

impl View for ModDirectory {
    type V = ModDirectoryV;

    open spec fn view(&self) -> ModDirectoryV {
        ModDirectoryV {
            locale_path: self.locale_path@,
            mod_info: self.mod_info@,
            subdirs: self.subdirs@.map_values(|d: Subdir| d@),
        }
    }
}

impl ModDirectory {
    /// Packs an inspected locale directory.
    pub fn new(locale_path: String, mod_info: GithubModInfo, subdirs: Vec<Subdir>) -> (r:
        ModDirectory)
        ensures
            r@.locale_path == locale_path@,
            r@.mod_info == mod_info@,
            r@.subdirs == subdirs@.map_values(|d: Subdir| d@),
    {
        ModDirectory { locale_path, mod_info, subdirs }
    }

    /// The locale directory's path.
    pub fn locale_path(&self) -> (r: &String)
        ensures
            r@ == self@.locale_path,
    {
        &self.locale_path
    }

    /// The path of the English subdirectory.
    pub fn locale_en_path(&self) -> (r: String)
        ensures
            r@ == self@.locale_path + "/en"@,
    {
        let mut p = self.locale_path.clone();
        p.append("/en");
        p
    }

    /// Whether the `en` subdirectory exists.
    pub fn check_for_locale_folder(&self) -> (r: bool)
        ensures
            r == spec_has_en(self@.subdirs),
    {
        find_subdir(&self.subdirs, "en").is_some()
    }

    /// The names of all regular files directly inside the `en`
    /// subdirectory, which must exist.
    pub fn get_english_files(&self) -> (r: Vec<String>)
        requires
            spec_has_en(self@.subdirs),
        ensures
            r@.map_values(|s: String| s@) == spec_en_names(self@.subdirs),
    {
        let e = find_subdir(&self.subdirs, "en").unwrap();
        proof {
            assert(spec_en_files(self@.subdirs) == self@.subdirs[e as int].files);
        }
        file_names(&self.subdirs[e].files)
    }

    /// The language subdirectories, each as its normalized code and its
    /// on-disk folder name.
    pub fn get_language_directories(&self, project_language_codes: &Vec<String>) -> (r: Vec<
        (String, String)>)
        ensures
            r@.map_values(|p: (String, String)| (p.0@, p.1@)) == spec_language_directories(
                self@.subdirs,
                project_language_codes@.map_values(|s: String| s@),
            ),
    {
        let ghost codes = project_language_codes@.map_values(|s: String| s@);
        let ghost dv = self@.subdirs;
        let mut out: Vec<(String, String)> = Vec::new();
        let mut i: usize = 0;
        proof {
            assert(dv.skip(0) =~= dv);
            assert(out@.map_values(|p: (String, String)| (p.0@, p.1@)) + spec_language_directories(
                dv,
                codes,
            ) =~= spec_language_directories(dv, codes));
        }
        while i < self.subdirs.len()
            invariant
                i <= self.subdirs@.len(),
                codes == project_language_codes@.map_values(|s: String| s@),
                dv == self@.subdirs,
                out@.map_values(|p: (String, String)| (p.0@, p.1@)) + spec_language_directories(
                    dv.skip(i as int),
                    codes,
                ) == spec_language_directories(dv, codes),
            decreases self.subdirs@.len() - i,
        {
            proof {
                assert(dv.skip(i as int)[0] == dv[i as int]);
                assert(dv.skip(i as int).drop_first() =~= dv.skip(i as int + 1));
                assert(dv[i as int] == self.subdirs@[i as int]@);
            }
            let code = normalize_language_code(self.subdirs[i].name.as_str());
            if contains_string(project_language_codes, code.as_str()) {
                let ghost pre = out@;
                out.push((code, self.subdirs[i].name.clone()));
                proof {
                    assert(out@.map_values(|p: (String, String)| (p.0@, p.1@)) =~= pre.map_values(
                        |p: (String, String)| (p.0@, p.1@),
                    ).push(
                        (spec_normalize_language_code(dv[i as int].name), dv[i as int].name),
                    ));
                    assert(pre.map_values(|p: (String, String)| (p.0@, p.1@)) + (seq![
                        (spec_normalize_language_code(dv[i as int].name), dv[i as int].name),
                    ] + spec_language_directories(dv.skip(i as int + 1), codes))
                        =~= out@.map_values(|p: (String, String)| (p.0@, p.1@))
                        + spec_language_directories(dv.skip(i as int + 1), codes));
                }
            }
            i = i + 1;
        }
        proof {
            assert(dv.skip(i as int) =~= Seq::<SubdirV>::empty());
            assert(out@.map_values(|p: (String, String)| (p.0@, p.1@))
                + Seq::<(Seq<char>, Seq<char>)>::empty() =~= out@.map_values(
                |p: (String, String)| (p.0@, p.1@),
            ));
        }
        out
    }

    /// The localizations: each language subdirectory other than `en`, as its
    /// normalized code and the names of its `.cfg` files.
    pub fn get_localizations(&self, project_language_codes: &Vec<String>) -> (r: Vec<
        (String, Vec<String>)>)
        ensures
            r@.map_values(|p: (String, Vec<String>)| (p.0@, p.1@.map_values(|s: String| s@)))
                == spec_localizations(
                self@.subdirs,
                project_language_codes@.map_values(|s: String| s@),
            ),
    {
        let ghost codes = project_language_codes@.map_values(|s: String| s@);
        let ghost dv = self@.subdirs;
        let ghost g = |p: (String, Vec<String>)| (p.0@, p.1@.map_values(|s: String| s@));
        let mut out: Vec<(String, Vec<String>)> = Vec::new();
        let mut i: usize = 0;
        proof {
            assert(dv.skip(0) =~= dv);
            assert(out@.map_values(
                |p: (String, Vec<String>)| (p.0@, p.1@.map_values(|s: String| s@)),
            ) + spec_localizations(dv, codes) =~= spec_localizations(dv, codes));
        }
        while i < self.subdirs.len()
            invariant
                i <= self.subdirs@.len(),
                codes == project_language_codes@.map_values(|s: String| s@),
                dv == self@.subdirs,
                out@.map_values(
                    |p: (String, Vec<String>)| (p.0@, p.1@.map_values(|s: String| s@)),
                ) + spec_localizations(dv.skip(i as int), codes) == spec_localizations(dv, codes),
            decreases self.subdirs@.len() - i,
        {
            proof {
                assert(dv.skip(i as int)[0] == dv[i as int]);
                assert(dv.skip(i as int).drop_first() =~= dv.skip(i as int + 1));
                assert(dv[i as int] == self.subdirs@[i as int]@);
            }
            let code = normalize_language_code(self.subdirs[i].name.as_str());
            let is_en = str_eq(code.as_str(), "en");
            if !is_en && contains_string(project_language_codes, code.as_str()) {
                let files = cfg_file_names(&self.subdirs[i].files);
                let ghost pre = out@;
                out.push((code, files));
                proof {
                    assert(out@.map_values(
                        |p: (String, Vec<String>)| (p.0@, p.1@.map_values(|s: String| s@)),
                    ) =~= pre.map_values(
                        |p: (String, Vec<String>)| (p.0@, p.1@.map_values(|s: String| s@)),
                    ).push(
                        (
                            spec_normalize_language_code(dv[i as int].name),
                            spec_cfg_names(dv[i as int].files),
                        ),
                    ));
                    assert(pre.map_values(
                        |p: (String, Vec<String>)| (p.0@, p.1@.map_values(|s: String| s@)),
                    ) + (seq![
                        (
                            spec_normalize_language_code(dv[i as int].name),
                            spec_cfg_names(dv[i as int].files),
                        ),
                    ] + spec_localizations(dv.skip(i as int + 1), codes)) =~= out@.map_values(
                        |p: (String, Vec<String>)| (p.0@, p.1@.map_values(|s: String| s@)),
                    ) + spec_localizations(dv.skip(i as int + 1), codes));
                }
            }
            i = i + 1;
        }
        proof {
            assert(dv.skip(i as int) =~= Seq::<SubdirV>::empty());
            assert(out@.map_values(
                |p: (String, Vec<String>)| (p.0@, p.1@.map_values(|s: String| s@)),
            ) + Seq::<(Seq<char>, Seq<Seq<char>>)>::empty() =~= out@.map_values(
                |p: (String, Vec<String>)| (p.0@, p.1@.map_values(|s: String| s@)),
            ));
        }
        out
    }

    /// The first translated `.cfg` file without a same-named English file,
    /// as its normalized language code and file name; `None` when all match.
    pub fn find_unmatched_translation(&self, project_language_codes: &Vec<String>) -> (r: Option<
        (String, String)>)
        ensures
            r is None <==> spec_translations_match(
                self@.subdirs,
                project_language_codes@.map_values(|s: String| s@),
            ),
            match r {
                Option::Some(p) => exists|d: int, f: int|
                    0 <= d < self@.subdirs.len() && spec_is_localization_dir(
                        (#[trigger] self@.subdirs[d]).name,
                        project_language_codes@.map_values(|s: String| s@),
                    ) && 0 <= f < self@.subdirs[d].files.len() && spec_is_cfg_name(
                        (#[trigger] self@.subdirs[d].files[f]).name,
                    ) && spec_file_index(spec_en_files(self@.subdirs), self@.subdirs[d].files[f].name)
                        < 0 && p.0@ == spec_normalize_language_code(self@.subdirs[d].name) && p.1@
                        == self@.subdirs[d].files[f].name,
                Option::None => true,
            },
    {
        let ghost codes = project_language_codes@.map_values(|s: String| s@);
        let ghost dv = self@.subdirs;
        let mut d: usize = 0;
        while d < self.subdirs.len()
            invariant
                d <= self.subdirs@.len(),
                codes == project_language_codes@.map_values(|s: String| s@),
                dv == self@.subdirs,
                forall|a: int, f: int|
                    0 <= a < d && spec_is_localization_dir((#[trigger] dv[a]).name, codes) && 0 <= f
                        < dv[a].files.len() && spec_is_cfg_name((#[trigger] dv[a].files[f]).name)
                        ==> spec_file_index(spec_en_files(dv), dv[a].files[f].name) >= 0,
            decreases self.subdirs@.len() - d,
        {
            proof {
                assert(dv[d as int] == self.subdirs@[d as int]@);
            }
            let code = normalize_language_code(self.subdirs[d].name.as_str());
            let is_en = str_eq(code.as_str(), "en");
            if !is_en && contains_string(project_language_codes, code.as_str()) {
                let mut f: usize = 0;
                while f < self.subdirs[d].files.len()
                    invariant
                        d < self.subdirs@.len(),
                        f <= self.subdirs@[d as int]@.files.len(),
                        codes == project_language_codes@.map_values(|s: String| s@),
                        dv == self@.subdirs,
                        code@ == spec_normalize_language_code(dv[d as int].name),
                        spec_is_localization_dir(dv[d as int].name, codes),
                        forall|k: int|
                            0 <= k < f && spec_is_cfg_name(
                                (#[trigger] dv[d as int].files[k]).name,
                            ) ==> spec_file_index(spec_en_files(dv), dv[d as int].files[k].name)
                                >= 0,
                    decreases self.subdirs@[d as int]@.files.len() - f,
                {
                    proof {
                        assert(dv[d as int] == self.subdirs@[d as int]@);
                        assert(dv[d as int].files[f as int]
                            == self.subdirs@[d as int].files@[f as int]@);
                    }
                    let fname = &self.subdirs[d].files[f].name;
                    if is_cfg_name(fname.as_str()) {
                        let found = match find_subdir(&self.subdirs, "en") {
                            Some(e) => {
                                proof {
                                    assert(spec_en_files(dv) == dv[e as int].files);
                                }
                                find_file(&self.subdirs[e].files, fname.as_str()).is_some()
                            },
                            None => {
                                proof {
                                    assert(spec_en_files(dv) =~= Seq::<FileV>::empty());
                                }
                                false
                            },
                        };
                        if !found {
                            return Some((code, fname.clone()));
                        }
                    }
                    f = f + 1;
                }
            } else {
                proof {
                    assert(!spec_is_localization_dir(dv[d as int].name, codes));
                }
            }
            d = d + 1;
        }
        None
    }

    /// Whether every translated file has a same-named English counterpart.
    pub fn check_translation_files_match_english_files(&self, project_language_codes: &Vec<
        String>) -> (r: bool)
        ensures
            r == spec_translations_match(
                self@.subdirs,
                project_language_codes@.map_values(|s: String| s@),
            ),
    {
        self.find_unmatched_translation(project_language_codes).is_none()
    }

    /// Whether the tree is structurally sound: `en` exists and every
    /// translated file has an English counterpart.
    pub fn check_structure(&self, project_language_codes: &Vec<String>) -> (r: bool)
        ensures
            r == (spec_has_en(self@.subdirs) && spec_translations_match(
                self@.subdirs,
                project_language_codes@.map_values(|s: String| s@),
            )),
    {
        if !self.check_for_locale_folder() {
            return false;
        }
        self.check_translation_files_match_english_files(project_language_codes)
    }
}

/// The index of the first subdirectory with this name.
pub fn find_subdir(dirs: &Vec<Subdir>, name: &str) -> (r: Option<usize>)
    ensures
        r is Some <==> spec_subdir_index(dirs@.map_values(|d: Subdir| d@), name@) >= 0,
        r is Some ==> r->0 == spec_subdir_index(dirs@.map_values(|d: Subdir| d@), name@) && r->0
            < dirs@.len(),
{
    let ghost dv = dirs@.map_values(|d: Subdir| d@);
    let mut i: usize = 0;
    proof {
        assert(dv.skip(0) =~= dv);
    }
    while i < dirs.len()
        invariant
            i <= dirs@.len(),
            dv == dirs@.map_values(|d: Subdir| d@),
            spec_subdir_index(dv.skip(i as int), name@) >= 0 ==> spec_subdir_index(dv, name@) == i
                + spec_subdir_index(dv.skip(i as int), name@),
            spec_subdir_index(dv.skip(i as int), name@) < 0 ==> spec_subdir_index(dv, name@)
                == spec_subdir_index(dv.skip(i as int), name@),
            forall|j: int| 0 <= j < i ==> (#[trigger] dv[j]).name != name@,
        decreases dirs@.len() - i,
    {
        proof {
            assert(dv.skip(i as int)[0] == dv[i as int]);
            assert(dv.skip(i as int).drop_first() =~= dv.skip(i as int + 1));
            assert(dv[i as int] == dirs@[i as int]@);
        }
        if str_eq(dirs[i].name.as_str(), name) {
            return Some(i);
        }
        i = i + 1;
    }
    proof {
        assert(dv.skip(i as int).len() == 0);
    }
    None
}

/// The index of the first file with this name.
pub fn find_file(files: &Vec<FileEntry>, name: &str) -> (r: Option<usize>)
    ensures
        r is Some <==> spec_file_index(files@.map_values(|f: FileEntry| f@), name@) >= 0,
        r is Some ==> r->0 == spec_file_index(files@.map_values(|f: FileEntry| f@), name@) && r->0
            < files@.len(),
{
    let ghost fv = files@.map_values(|f: FileEntry| f@);
    let mut i: usize = 0;
    proof {
        assert(fv.skip(0) =~= fv);
    }
    while i < files.len()
        invariant
            i <= files@.len(),
            fv == files@.map_values(|f: FileEntry| f@),
            spec_file_index(fv.skip(i as int), name@) >= 0 ==> spec_file_index(fv, name@) == i
                + spec_file_index(fv.skip(i as int), name@),
            spec_file_index(fv.skip(i as int), name@) < 0 ==> spec_file_index(fv, name@)
                == spec_file_index(fv.skip(i as int), name@),
            forall|j: int| 0 <= j < i ==> (#[trigger] fv[j]).name != name@,
        decreases files@.len() - i,
    {
        proof {
            assert(fv.skip(i as int)[0] == fv[i as int]);
            assert(fv.skip(i as int).drop_first() =~= fv.skip(i as int + 1));
            assert(fv[i as int] == files@[i as int]@);
        }
        if str_eq(files[i].name.as_str(), name) {
            return Some(i);
        }
        i = i + 1;
    }
    proof {
        assert(fv.skip(i as int).len() == 0);
    }
    None
}

/// Whether a file name ends in the repository locale extension.
pub fn is_cfg_name(name: &str) -> (r: bool)
    ensures
        r == spec_is_cfg_name(name@),
{
    let chars = crate::text::chars_of(name);
    let n = chars.len();
    proof {
        reveal_strlit(".cfg");
    }
    if n >= 4 && chars[n - 4] == '.' && chars[n - 3] == 'c' && chars[n - 2] == 'f' && chars[n - 1]
        == 'g' {
        proof {
            assert(name@.subrange(name@.len() - 4, name@.len() as int) =~= ".cfg"@);
        }
        true
    } else {
        proof {
            if name@.len() >= 4 && name@.subrange(name@.len() - 4, name@.len() as int) == ".cfg"@ {
                let sub = name@.subrange(name@.len() - 4, name@.len() as int);
                assert(sub[0] == name@[name@.len() - 4] && sub[1] == name@[name@.len() - 3] && sub[2]
                    == name@[name@.len() - 2] && sub[3] == name@[name@.len() - 1]);
                assert(sub[0] == '.' && sub[1] == 'c' && sub[2] == 'f' && sub[3] == 'g');
            }
        }
        false
    }
}

/// The names of all files, in order.
pub fn file_names(files: &Vec<FileEntry>) -> (r: Vec<String>)
    ensures
        r@.map_values(|s: String| s@) == files@.map_values(|f: FileEntry| f@).map_values(
            |f: FileV| f.name,
        ),
{
    let mut out: Vec<String> = Vec::new();
    let mut i: usize = 0;
    while i < files.len()
        invariant
            i <= files@.len(),
            out@.len() == i,
            forall|k: int| 0 <= k < i ==> (#[trigger] out@[k])@ == files@[k]@.name,
        decreases files@.len() - i,
    {
        out.push(files[i].name.clone());
        i = i + 1;
    }
    proof {
        assert(out@.map_values(|s: String| s@) =~= files@.map_values(|f: FileEntry| f@)
            .map_values(|f: FileV| f.name));
    }
    out
}

/// The names of the `.cfg` files among these files, in order.
pub fn cfg_file_names(files: &Vec<FileEntry>) -> (r: Vec<String>)
    ensures
        r@.map_values(|s: String| s@) == spec_cfg_names(files@.map_values(|f: FileEntry| f@)),
{
    let ghost fv = files@.map_values(|f: FileEntry| f@);
    let mut out: Vec<String> = Vec::new();
    let mut i: usize = 0;
    proof {
        assert(fv.skip(0) =~= fv);
        assert(out@.map_values(|s: String| s@) + spec_cfg_names(fv) =~= spec_cfg_names(fv));
    }
    while i < files.len()
        invariant
            i <= files@.len(),
            fv == files@.map_values(|f: FileEntry| f@),
            out@.map_values(|s: String| s@) + spec_cfg_names(fv.skip(i as int)) == spec_cfg_names(
                fv,
            ),
        decreases files@.len() - i,
    {
        proof {
            assert(fv.skip(i as int)[0] == fv[i as int]);
            assert(fv.skip(i as int).drop_first() =~= fv.skip(i as int + 1));
            assert(fv[i as int] == files@[i as int]@);
        }
        if is_cfg_name(files[i].name.as_str()) {
            let ghost pre = out@;
            out.push(files[i].name.clone());
            proof {
                assert(out@.map_values(|s: String| s@) =~= pre.map_values(|s: String| s@).push(
                    fv[i as int].name,
                ));
                assert(pre.map_values(|s: String| s@) + (seq![fv[i as int].name] + spec_cfg_names(
                    fv.skip(i as int + 1),
                )) =~= out@.map_values(|s: String| s@) + spec_cfg_names(fv.skip(i as int + 1)));
            }
        }
        i = i + 1;
    }
    proof {
        assert(fv.skip(i as int) =~= Seq::<FileV>::empty());
        assert(out@.map_values(|s: String| s@) + Seq::<Seq<char>>::empty() =~= out@.map_values(
            |s: String| s@,
        ));
    }
    out
}

} // verus!
