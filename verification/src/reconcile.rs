//! Reconciliation of a downloaded translation bundle with a repository
//! working tree.
//!
//! The bundle is laid out as `<language>/<platform directory name>/<file>`.
//! Reconciliation first deletes orphaned translated files — translations
//! whose English source is gone — and then, language by language, moves the
//! bundle's files of this mod into the matching local language folder,
//! renaming the platform extension back to the repository extension and
//! overwriting files of the same name.  The local folder keeps its on-disk
//! spelling of the language code; a folder is created under the canonical
//! spelling only when none exists.

use vstd::prelude::*;

use crate::crowdin::{get_crowdin_directory_name, replace_ini_to_cfg, spec_crowdin_directory_name,
    spec_normalize_language_code, spec_replace_ini_to_cfg, normalize_language_code};
use crate::github_repo_info::{GithubModInfo, ModInfoView, contains_string};
use crate::mod_directory::{FileEntry, FileV, ModDirectory, Subdir, SubdirV, find_file,
    find_subdir, is_cfg_name, spec_en_names, spec_file_index, spec_has_en, spec_is_cfg_name,
    spec_is_localization_dir, spec_subdir_index};
use crate::text::str_eq;

verus! {

/// Mathematical image of a [`BundleDirectory`].
#[verifier::ext_equal]
pub struct BundleDirV {
    pub name: Seq<char>,
    pub files: Seq<FileV>,
}

/// One per-mod directory inside one language folder of the bundle.
#[derive(Debug, Clone, PartialEq, Eq)]
pub struct BundleDirectory {
    pub name: String,
    pub files: Vec<FileEntry>,
}

impl View for BundleDirectory {
    type V = BundleDirV;

    open spec fn view(&self) -> BundleDirV {
        BundleDirV { name: self.name@, files: self.files@.map_values(|f: FileEntry| f@) }
    }
}

/// Mathematical image of a [`BundleLanguage`].
#[verifier::ext_equal]
pub struct BundleLangV {
    pub language: Seq<char>,
    pub directories: Seq<BundleDirV>,
}

/// One language folder of the bundle, holding one directory per mod.
#[derive(Debug, Clone, PartialEq, Eq)]
pub struct BundleLanguage {
    pub language: String,
    pub directories: Vec<BundleDirectory>,
}

impl View for BundleLanguage {
    type V = BundleLangV;

    open spec fn view(&self) -> BundleLangV {
        BundleLangV {
            language: self.language@,
            directories: self.directories@.map_values(|d: BundleDirectory| d@),
        }
    }
}

/// Mathematical image of a [`TranslationBundle`].
#[verifier::ext_equal]
pub struct BundleV {
    pub languages: Seq<BundleLangV>,
}

/// A downloaded translation bundle: one folder per language.
#[derive(Debug, Clone, PartialEq, Eq)]
pub struct TranslationBundle {
    pub languages: Vec<BundleLanguage>,
}

impl View for TranslationBundle {
    type V = BundleV;

    open spec fn view(&self) -> BundleV {
        BundleV { languages: self.languages@.map_values(|l: BundleLanguage| l@) }
    }
}

/// Whether a file name carries the platform extension.
pub open spec fn spec_is_ini_name(name: Seq<char>) -> bool {
    name.len() >= 4 && name.subrange(name.len() - 4, name.len() as int) == ".ini"@
}

/// The index of the first bundle directory with this name, or -1.
pub open spec fn spec_bundle_dir_index(dirs: Seq<BundleDirV>, name: Seq<char>) -> int
    decreases dirs.len(),
{
    if dirs.len() == 0 {
        -1
    } else if dirs[0].name == name {
        0
    } else {
        let r = spec_bundle_dir_index(dirs.drop_first(), name);
        if r < 0 {
            -1
        } else {
            r + 1
        }
    }
}

/// Whether translations of this language are taken for this mod.  A single
/// named repository accepts only French, by its owner's request; every
/// other mod accepts every language.  This is a deliberate special case,
/// not a pattern to extend.
pub open spec fn spec_language_enabled(m: ModInfoView, language: Seq<char>) -> bool {
    if m.owner == "PennyJim"@ && m.repo == "pirate-locale"@ {
        language == "fr"@
    } else {
        true
    }
}

/// Whether translations of this language are taken for this mod.
pub fn language_is_enabled_for_mod_on_crowdin(mod_info: &GithubModInfo, language: &str) -> (r:
    bool)
    ensures
        r == spec_language_enabled(mod_info@, language@),
{
    if str_eq(mod_info.owner.as_str(), "PennyJim") && str_eq(
        mod_info.repo.as_str(),
        "pirate-locale",
    ) {
        str_eq(language, "fr")
    } else {
        true
    }
}

/// The files kept by orphan cleanup: every file that is not a `.cfg`
/// translation, and every translation whose name appears among the English
/// source names.
pub open spec fn spec_clean_files(files: Seq<FileV>, en_names: Seq<Seq<char>>) -> Seq<FileV>
    decreases files.len(),
{
    if files.len() == 0 {
        Seq::empty()
    } else {
        let rest = spec_clean_files(files.drop_first(), en_names);
        if !spec_is_cfg_name(files[0].name) || en_names.contains(files[0].name) {
            seq![files[0]] + rest
        } else {
            rest
        }
    }
}

/// Orphan cleanup over the whole tree: each language subdirectory loses its
/// orphaned translations; every other subdirectory stays as it is.
pub open spec fn spec_clean(
    dirs: Seq<SubdirV>,
    en_names: Seq<Seq<char>>,
    codes: Seq<Seq<char>>,
) -> Seq<SubdirV>
    decreases dirs.len(),
{
    if dirs.len() == 0 {
        Seq::empty()
    } else {
        let rest = spec_clean(dirs.drop_first(), en_names, codes);
        let head = if spec_is_localization_dir(dirs[0].name, codes) {
            SubdirV { name: dirs[0].name, files: spec_clean_files(dirs[0].files, en_names) }
        } else {
            dirs[0]
        };
        seq![head] + rest
    }
}

/// A bundle file renamed to its repository spelling.
pub open spec fn spec_renamed(f: FileV) -> FileV {
    FileV { name: spec_replace_ini_to_cfg(f.name), content: f.content }
}

/// A file moved into a folder: it overwrites the file of the same name, or
/// is appended when none exists.
pub open spec fn spec_insert_file(files: Seq<FileV>, f: FileV) -> Seq<FileV> {
    let i = spec_file_index(files, f.name);
    if i >= 0 {
        files.update(i, f)
    } else {
        files.push(f)
    }
}

/// All bundle files moved into a folder in order, each renamed and each
/// overwriting its namesake.
pub open spec fn spec_overlay(files: Seq<FileV>, bundle_files: Seq<FileV>) -> Seq<FileV>
    decreases bundle_files.len(),
{
    if bundle_files.len() == 0 {
        files
    } else {
        spec_overlay(spec_insert_file(files, spec_renamed(bundle_files[0])), bundle_files
            .drop_first())
    }
}

/// The index of the first subdirectory whose name normalizes to this
/// language, or -1.
pub open spec fn spec_lang_match_index(dirs: Seq<SubdirV>, language: Seq<char>) -> int
    decreases dirs.len(),
{
    if dirs.len() == 0 {
        -1
    } else if spec_normalize_language_code(dirs[0].name) == language {
        0
    } else {
        let r = spec_lang_match_index(dirs.drop_first(), language);
        if r < 0 {
            -1
        } else {
            r + 1
        }
    }
}

/// One language of the bundle merged into the tree: skipped when the
/// language is gated off for this mod, when the bundle holds no directory
/// for the mod, or when that directory is empty; otherwise its files land
/// in the first local folder spelling this language, or in a new folder
/// under the canonical spelling.
pub open spec fn spec_apply_language(dirs: Seq<SubdirV>, lang: BundleLangV, m: ModInfoView) -> Seq<
    SubdirV> {
    if !spec_language_enabled(m, lang.language) {
        dirs
    } else {
        let di = spec_bundle_dir_index(lang.directories, spec_crowdin_directory_name(m));
        if di < 0 {
            dirs
        } else {
            let bfiles = lang.directories[di].files;
            if bfiles.len() == 0 {
                dirs
            } else {
                let li = spec_lang_match_index(dirs, lang.language);
                let target_name = if li >= 0 {
                    dirs[li].name
                } else {
                    lang.language
                };
                let ti = spec_subdir_index(dirs, target_name);
                if ti >= 0 {
                    dirs.update(
                        ti,
                        SubdirV { name: dirs[ti].name, files: spec_overlay(dirs[ti].files, bfiles) },
                    )
                } else {
                    dirs.push(
                        SubdirV { name: target_name, files: spec_overlay(Seq::empty(), bfiles) },
                    )
                }
            }
        }
    }
}

/// All bundle languages merged in order.
pub open spec fn spec_apply_languages(
    dirs: Seq<SubdirV>,
    langs: Seq<BundleLangV>,
    m: ModInfoView,
) -> Seq<SubdirV>
    decreases langs.len(),
{
    if langs.len() == 0 {
        dirs
    } else {
        spec_apply_languages(spec_apply_language(dirs, langs[0], m), langs.drop_first(), m)
    }
}

/// The whole reconciliation: orphan cleanup, then the per-language merge.
pub open spec fn spec_reconcile(
    dirs: Seq<SubdirV>,
    bundle: BundleV,
    m: ModInfoView,
    codes: Seq<Seq<char>>,
) -> Seq<SubdirV> {
    spec_apply_languages(
        spec_clean(dirs, spec_en_names(dirs), codes),
        bundle.languages,
        m,
    )
}

/// Merging a list of languages and then one more is merging the longer
/// list.
pub proof fn lemma_apply_languages_snoc(
    dirs: Seq<SubdirV>,
    langs: Seq<BundleLangV>,
    x: BundleLangV,
    m: ModInfoView,
)
    ensures
        spec_apply_languages(dirs, langs.push(x), m) == spec_apply_language(
            spec_apply_languages(dirs, langs, m),
            x,
            m,
        ),
    decreases langs.len(),
{
    assert(langs.push(x).len() == langs.len() + 1);
    assert(spec_apply_languages(dirs, langs.push(x), m) == spec_apply_languages(
        spec_apply_language(dirs, langs.push(x)[0], m),
        langs.push(x).drop_first(),
        m,
    ));
    if langs.len() == 0 {
        assert(langs.push(x)[0] == x);
        assert(langs.push(x).drop_first() =~= Seq::<BundleLangV>::empty());
        assert(spec_apply_languages(spec_apply_language(dirs, x, m), Seq::<BundleLangV>::empty(), m)
            == spec_apply_language(dirs, x, m));
        assert(spec_apply_languages(dirs, langs, m) == dirs);
    } else {
        assert(langs.push(x)[0] == langs[0]);
        assert(langs.push(x).drop_first() =~= langs.drop_first().push(x));
        lemma_apply_languages_snoc(spec_apply_language(dirs, langs[0], m), langs.drop_first(), x, m);
        assert(spec_apply_languages(dirs, langs, m) == spec_apply_languages(
            spec_apply_language(dirs, langs[0], m),
            langs.drop_first(),
            m,
        ));
    }
}

/// Overlaying a list of files and then one more is overlaying the longer
/// list.
pub proof fn lemma_overlay_snoc(files: Seq<FileV>, bundle_files: Seq<FileV>, x: FileV)
    ensures
        spec_overlay(files, bundle_files.push(x)) == spec_insert_file(
            spec_overlay(files, bundle_files),
            spec_renamed(x),
        ),
    decreases bundle_files.len(),
{
    assert(bundle_files.push(x).len() == bundle_files.len() + 1);
    assert(spec_overlay(files, bundle_files.push(x)) == spec_overlay(
        spec_insert_file(files, spec_renamed(bundle_files.push(x)[0])),
        bundle_files.push(x).drop_first(),
    ));
    if bundle_files.len() == 0 {
        assert(bundle_files.push(x)[0] == x);
        assert(bundle_files.push(x).drop_first() =~= Seq::<FileV>::empty());
        assert(spec_overlay(spec_insert_file(files, spec_renamed(x)), Seq::<FileV>::empty())
            == spec_insert_file(files, spec_renamed(x)));
        assert(spec_overlay(files, bundle_files) == files);
    } else {
        assert(bundle_files.push(x)[0] == bundle_files[0]);
        assert(bundle_files.push(x).drop_first() =~= bundle_files.drop_first().push(x));
        lemma_overlay_snoc(
            spec_insert_file(files, spec_renamed(bundle_files[0])),
            bundle_files.drop_first(),
            x,
        );
        assert(spec_overlay(files, bundle_files) == spec_overlay(
            spec_insert_file(files, spec_renamed(bundle_files[0])),
            bundle_files.drop_first(),
        ));
    }
}

/// A copy of a file, with the same name and content.
pub fn clone_file(f: &FileEntry) -> (r: FileEntry)
    ensures
        r@ == f@,
{
    FileEntry { name: f.name.clone(), content: f.content.clone() }
}

/// A copy of a file list, with the same entries.
pub fn clone_files(files: &Vec<FileEntry>) -> (r: Vec<FileEntry>)
    ensures
        r@.map_values(|f: FileEntry| f@) == files@.map_values(|f: FileEntry| f@),
{
    let mut out: Vec<FileEntry> = Vec::new();
    let mut i: usize = 0;
    while i < files.len()
        invariant
            i <= files@.len(),
            out@.len() == i,
            forall|k: int| 0 <= k < i ==> (#[trigger] out@[k])@ == files@[k]@,
        decreases files@.len() - i,
    {
        out.push(clone_file(&files[i]));
        i = i + 1;
    }
    proof {
        assert(out@.map_values(|f: FileEntry| f@) =~= files@.map_values(|f: FileEntry| f@));
    }
    out
}

/// A copy of a subdirectory, with the same name and files.
pub fn clone_subdir(d: &Subdir) -> (r: Subdir)
    ensures
        r@ == d@,
{
    let r = Subdir { name: d.name.clone(), files: clone_files(&d.files) };
    proof {
        assert(r@ =~= d@);
    }
    r
}

/// Replaces one subdirectory of the list.
fn set_subdir(dirs: &mut Vec<Subdir>, i: usize, d: Subdir)
    requires
        i < old(dirs)@.len(),
    ensures
        final(dirs)@.map_values(|x: Subdir| x@) == old(dirs)@.map_values(|x: Subdir| x@).update(
            i as int,
            d@,
        ),
{
    let ghost dv = d@;
    dirs[i] = d;
    proof {
        assert(dirs@.map_values(|x: Subdir| x@) =~= old(dirs)@.map_values(|x: Subdir| x@).update(
            i as int,
            dv,
        ));
    }
}

/// Replaces one file of the list.
fn set_file(files: &mut Vec<FileEntry>, i: usize, f: FileEntry)
    requires
        i < old(files)@.len(),
    ensures
        final(files)@.map_values(|x: FileEntry| x@) == old(files)@.map_values(
            |x: FileEntry| x@,
        ).update(i as int, f@),
{
    let ghost fv = f@;
    files[i] = f;
    proof {
        assert(files@.map_values(|x: FileEntry| x@) =~= old(files)@.map_values(
            |x: FileEntry| x@,
        ).update(i as int, fv));
    }
}

/// The index of the first bundle directory with this name.
pub fn find_bundle_dir(dirs: &Vec<BundleDirectory>, name: &str) -> (r: Option<usize>)
    ensures
        r is Some <==> spec_bundle_dir_index(dirs@.map_values(|d: BundleDirectory| d@), name@)
            >= 0,
        r is Some ==> r->0 == spec_bundle_dir_index(
            dirs@.map_values(|d: BundleDirectory| d@),
            name@,
        ) && r->0 < dirs@.len(),
{
    let ghost dv = dirs@.map_values(|d: BundleDirectory| d@);
    let mut i: usize = 0;
    proof {
        assert(dv.skip(0) =~= dv);
    }
    while i < dirs.len()
        invariant
            i <= dirs@.len(),
            dv == dirs@.map_values(|d: BundleDirectory| d@),
            spec_bundle_dir_index(dv.skip(i as int), name@) >= 0 ==> spec_bundle_dir_index(
                dv,
                name@,
            ) == i + spec_bundle_dir_index(dv.skip(i as int), name@),
            spec_bundle_dir_index(dv.skip(i as int), name@) < 0 ==> spec_bundle_dir_index(
                dv,
                name@,
            ) == spec_bundle_dir_index(dv.skip(i as int), name@),
        decreases dirs@.len() - i,
    {
        proof {
            assert(dv.skip(i as int)[0] == dv[i as int]);
            assert(dv.skip(i as int).drop_first() =~= dv.skip(i as int + 1));
            assert(dv[i as int] == dirs@[i as int]@);
        }
        if str_eq(dirs[i].name.as_str(), name) {
            return Some(i);
        }
        i = i + 1;
    }
    proof {
        assert(dv.skip(i as int).len() == 0);
    }
    None
}

/// The index of the first subdirectory whose name normalizes to this
/// language.
pub fn find_language_match(dirs: &Vec<Subdir>, language: &str) -> (r: Option<usize>)
    ensures
        r is Some <==> spec_lang_match_index(dirs@.map_values(|d: Subdir| d@), language@) >= 0,
        r is Some ==> r->0 == spec_lang_match_index(
            dirs@.map_values(|d: Subdir| d@),
            language@,
        ) && r->0 < dirs@.len(),
{
    let ghost dv = dirs@.map_values(|d: Subdir| d@);
    let mut i: usize = 0;
    proof {
        assert(dv.skip(0) =~= dv);
    }
    while i < dirs.len()
        invariant
            i <= dirs@.len(),
            dv == dirs@.map_values(|d: Subdir| d@),
            spec_lang_match_index(dv.skip(i as int), language@) >= 0 ==> spec_lang_match_index(
                dv,
                language@,
            ) == i + spec_lang_match_index(dv.skip(i as int), language@),
            spec_lang_match_index(dv.skip(i as int), language@) < 0 ==> spec_lang_match_index(
                dv,
                language@,
            ) == spec_lang_match_index(dv.skip(i as int), language@),
        decreases dirs@.len() - i,
    {
        proof {
            assert(dv.skip(i as int)[0] == dv[i as int]);
            assert(dv.skip(i as int).drop_first() =~= dv.skip(i as int + 1));
            assert(dv[i as int] == dirs@[i as int]@);
        }
        let code = normalize_language_code(dirs[i].name.as_str());
        if str_eq(code.as_str(), language) {
            return Some(i);
        }
        i = i + 1;
    }
    proof {
        assert(dv.skip(i as int).len() == 0);
    }
    None
}

/// Moves the bundle files of one directory into a folder's files, renaming
/// each to the repository extension and overwriting namesakes.
pub fn overlay_files(base: Vec<FileEntry>, bundle_files: &Vec<FileEntry>) -> (r: Vec<FileEntry>)
    ensures
        r@.map_values(|f: FileEntry| f@) == spec_overlay(
            base@.map_values(|f: FileEntry| f@),
            bundle_files@.map_values(|f: FileEntry| f@),
        ),
{
    let ghost base0 = base@.map_values(|f: FileEntry| f@);
    let ghost bfv = bundle_files@.map_values(|f: FileEntry| f@);
    let mut acc = base;
    let mut k: usize = 0;
    proof {
        assert(bfv.take(0) =~= Seq::<FileV>::empty());
    }
    while k < bundle_files.len()
        invariant
            k <= bundle_files@.len(),
            bfv == bundle_files@.map_values(|f: FileEntry| f@),
            acc@.map_values(|f: FileEntry| f@) == spec_overlay(base0, bfv.take(k as int)),
        decreases bundle_files@.len() - k,
    {
        proof {
            assert(bfv[k as int] == bundle_files@[k as int]@);
        }
        let renamed_name = replace_ini_to_cfg(bundle_files[k].name.as_str());
        let newf = FileEntry { name: renamed_name, content: bundle_files[k].content.clone() };
        let ghost nfv = newf@;
        proof {
            assert(nfv == spec_renamed(bfv[k as int]));
        }
        match find_file(&acc, newf.name.as_str()) {
            Some(j) => {
                set_file(&mut acc, j, newf);
            },
            None => {
                let ghost pre = acc@.map_values(|f: FileEntry| f@);
                acc.push(newf);
                proof {
                    assert(acc@.map_values(|f: FileEntry| f@) =~= pre.push(nfv));
                }
            },
        }
        proof {
            lemma_overlay_snoc(base0, bfv.take(k as int), bfv[k as int]);
            assert(bfv.take(k as int).push(bfv[k as int]) =~= bfv.take(k as int + 1));
        }
        k = k + 1;
    }
    proof {
        assert(bfv.take(k as int) =~= bfv);
    }
    acc
}

/// Deletes every translated `.cfg` file whose name has no English source
/// file: English is the source of truth, so a translation for a removed
/// English string must not survive.  All other subdirectories and files
/// stay untouched.
pub fn delete_unmatched_localization_files(
    mod_directory: &mut ModDirectory,
    project_language_codes: &Vec<String>,
)
    requires
        spec_has_en(old(mod_directory)@.subdirs),
    ensures
        final(mod_directory)@.locale_path == old(mod_directory)@.locale_path,
        final(mod_directory)@.mod_info == old(mod_directory)@.mod_info,
        final(mod_directory)@.subdirs == spec_clean(
            old(mod_directory)@.subdirs,
            spec_en_names(old(mod_directory)@.subdirs),
            project_language_codes@.map_values(|s: String| s@),
        ),
{
    let ghost dv = mod_directory@.subdirs;
    let ghost codes = project_language_codes@.map_values(|s: String| s@);
    let en_names = mod_directory.get_english_files();
    let ghost en_v = en_names@.map_values(|s: String| s@);
    proof {
        assert(en_v == spec_en_names(dv));
    }
    let mut out: Vec<Subdir> = Vec::new();
    let mut i: usize = 0;
    proof {
        assert(dv.skip(0) =~= dv);
        assert(out@.map_values(|d: Subdir| d@) + spec_clean(dv, en_v, codes) =~= spec_clean(
            dv,
            en_v,
            codes,
        ));
    }
    while i < mod_directory.subdirs.len()
        invariant
            i <= mod_directory.subdirs@.len(),
            codes == project_language_codes@.map_values(|s: String| s@),
            en_v == en_names@.map_values(|s: String| s@),
            dv == mod_directory@.subdirs,
            out@.map_values(|d: Subdir| d@) + spec_clean(dv.skip(i as int), en_v, codes)
                == spec_clean(dv, en_v, codes),
        decreases mod_directory.subdirs@.len() - i,
    {
        proof {
            assert(dv.skip(i as int)[0] == dv[i as int]);
            assert(dv.skip(i as int).drop_first() =~= dv.skip(i as int + 1));
            assert(dv[i as int] == mod_directory.subdirs@[i as int]@);
        }
        let dir = &mod_directory.subdirs[i];
        let code = normalize_language_code(dir.name.as_str());
        let is_en = str_eq(code.as_str(), "en");
        let ghost pre = out@.map_values(|d: Subdir| d@);
        if !is_en && contains_string(project_language_codes, code.as_str()) {
            let ghost fv = dv[i as int].files;
            let mut kept: Vec<FileEntry> = Vec::new();
            let mut k: usize = 0;
            proof {
                assert(fv.skip(0) =~= fv);
                assert(kept@.map_values(|f: FileEntry| f@) + spec_clean_files(fv, en_v)
                    =~= spec_clean_files(fv, en_v));
            }
            while k < dir.files.len()
                invariant
                    k <= dir.files@.len(),
                    en_v == en_names@.map_values(|s: String| s@),
                    fv == dir.files@.map_values(|f: FileEntry| f@),
                    kept@.map_values(|f: FileEntry| f@) + spec_clean_files(
                        fv.skip(k as int),
                        en_v,
                    ) == spec_clean_files(fv, en_v),
                decreases dir.files@.len() - k,
            {
                proof {
                    assert(fv.skip(k as int)[0] == fv[k as int]);
                    assert(fv.skip(k as int).drop_first() =~= fv.skip(k as int + 1));
                    assert(fv[k as int] == dir.files@[k as int]@);
                }
                let f = &dir.files[k];
                let keep = !is_cfg_name(f.name.as_str()) || contains_string(
                    &en_names,
                    f.name.as_str(),
                );
                if keep {
                    let ghost prek = kept@.map_values(|f: FileEntry| f@);
                    kept.push(clone_file(f));
                    proof {
                        assert(kept@.map_values(|f: FileEntry| f@) =~= prek.push(fv[k as int]));
                        assert(prek.push(fv[k as int]) + spec_clean_files(
                            fv.skip(k as int + 1),
                            en_v,
                        ) =~= prek + (seq![fv[k as int]] + spec_clean_files(
                            fv.skip(k as int + 1),
                            en_v,
                        )));
                    }
                }
                k = k + 1;
            }
            proof {
                assert(fv.skip(k as int) =~= Seq::<FileV>::empty());
                assert(kept@.map_values(|f: FileEntry| f@) + Seq::<FileV>::empty()
                    =~= kept@.map_values(|f: FileEntry| f@));
            }
            let newdir = Subdir { name: dir.name.clone(), files: kept };
            let ghost ndv = newdir@;
            proof {
                assert(ndv == (SubdirV {
                    name: dv[i as int].name,
                    files: spec_clean_files(dv[i as int].files, en_v),
                }));
            }
            out.push(newdir);
            proof {
                assert(out@.map_values(|d: Subdir| d@) =~= pre.push(ndv));
                assert(pre.push(ndv) + spec_clean(dv.skip(i as int + 1), en_v, codes) =~= pre + (
                seq![ndv] + spec_clean(dv.skip(i as int + 1), en_v, codes)));
            }
        } else {
            proof {
                assert(!spec_is_localization_dir(dv[i as int].name, codes));
            }
            let copied = clone_subdir(dir);
            let ghost cdv = copied@;
            out.push(copied);
            proof {
                assert(cdv == dv[i as int]);
                assert(out@.map_values(|d: Subdir| d@) =~= pre.push(cdv));
                assert(pre.push(cdv) + spec_clean(dv.skip(i as int + 1), en_v, codes) =~= pre + (
                seq![cdv] + spec_clean(dv.skip(i as int + 1), en_v, codes)));
            }
        }
        i = i + 1;
    }
    proof {
        assert(dv.skip(i as int) =~= Seq::<SubdirV>::empty());
        assert(out@.map_values(|d: Subdir| d@) + Seq::<SubdirV>::empty() =~= out@.map_values(
            |d: Subdir| d@,
        ));
    }
    mod_directory.subdirs = out;
}

/// The files the bundle holds for this mod in one language: the files of
/// the directory carrying the mod's platform name, none when that
/// directory is absent.
pub open spec fn spec_bundle_mod_files(lang: BundleLangV, m: ModInfoView) -> Seq<FileV> {
    let di = spec_bundle_dir_index(lang.directories, spec_crowdin_directory_name(m));
    if di >= 0 {
        lang.directories[di].files
    } else {
        Seq::empty()
    }
}

/// Merges a downloaded translation bundle into the locale tree: orphaned
/// translations are deleted first, then each bundle language's files for
/// this mod land in the locally preferred folder spelling of that language
/// (or a new canonical folder), renamed to the repository extension and
/// overwriting files of the same name.  The bundle must hold a directory
/// for this mod in every language it is enabled for, and every file in
/// those directories must carry the platform extension.
pub fn move_translated_files_to_mod_directory(
    mod_directory: &mut ModDirectory,
    translation_bundle: &TranslationBundle,
    project_language_codes: &Vec<String>,
)
    requires
        spec_has_en(old(mod_directory)@.subdirs),
        forall|l: int|
            0 <= l < translation_bundle@.languages.len() && spec_language_enabled(
                old(mod_directory)@.mod_info,
                (#[trigger] translation_bundle@.languages[l]).language,
            ) ==> spec_bundle_dir_index(
                translation_bundle@.languages[l].directories,
                spec_crowdin_directory_name(old(mod_directory)@.mod_info),
            ) >= 0,
        forall|l: int, f: int|
            0 <= l < translation_bundle@.languages.len() && 0 <= f < spec_bundle_mod_files(
                translation_bundle@.languages[l],
                old(mod_directory)@.mod_info,
            ).len() ==> spec_is_ini_name(
                (#[trigger] spec_bundle_mod_files(
                    translation_bundle@.languages[l],
                    old(mod_directory)@.mod_info,
                )[f]).name,
            ),
    ensures
        final(mod_directory)@.locale_path == old(mod_directory)@.locale_path,
        final(mod_directory)@.mod_info == old(mod_directory)@.mod_info,
        final(mod_directory)@.subdirs == spec_reconcile(
            old(mod_directory)@.subdirs,
            translation_bundle@,
            old(mod_directory)@.mod_info,
            project_language_codes@.map_values(|s: String| s@),
        ),
{
    let ghost m = mod_directory@.mod_info;
    let ghost langs = translation_bundle@.languages;
    delete_unmatched_localization_files(mod_directory, project_language_codes);
    let ghost cleaned = mod_directory@.subdirs;
    let crowdin_name = get_crowdin_directory_name(&mod_directory.mod_info);
    let mut l: usize = 0;
    proof {
        assert(langs.take(0) =~= Seq::<BundleLangV>::empty());
    }
    while l < translation_bundle.languages.len()
        invariant
            l <= translation_bundle.languages@.len(),
            langs == translation_bundle@.languages,
            mod_directory@.mod_info == m,
            mod_directory@.locale_path == old(mod_directory)@.locale_path,
            crowdin_name@ == spec_crowdin_directory_name(m),
            mod_directory@.subdirs == spec_apply_languages(cleaned, langs.take(l as int), m),
            forall|a: int|
                0 <= a < langs.len() && spec_language_enabled(m, (#[trigger] langs[a]).language)
                    ==> spec_bundle_dir_index(
                    langs[a].directories,
                    spec_crowdin_directory_name(m),
                ) >= 0,
        decreases translation_bundle.languages@.len() - l,
    {
        let ghost lv = langs[l as int];
        let ghost cur = mod_directory@.subdirs;
        proof {
            lemma_apply_languages_snoc(cleaned, langs.take(l as int), lv, m);
            assert(langs.take(l as int).push(lv) =~= langs.take(l as int + 1));
            assert(lv == translation_bundle.languages@[l as int]@);
        }
        let lang = &translation_bundle.languages[l];
        if !language_is_enabled_for_mod_on_crowdin(&mod_directory.mod_info, lang.language.as_str())
        {
            proof {
                assert(spec_apply_language(cur, lv, m) == cur);
            }
            l = l + 1;
            continue ;
        }
        let di = find_bundle_dir(&lang.directories, crowdin_name.as_str()).unwrap();
        proof {
            assert(lv.directories[di as int] == lang.directories@[di as int]@);
        }
        if lang.directories[di].files.len() == 0 {
            proof {
                assert(lv.directories[di as int].files.len() == 0);
                assert(spec_apply_language(cur, lv, m) == cur);
            }
            l = l + 1;
            continue ;
        }
        proof {
            assert(lv.directories[di as int].files.len() > 0);
        }
        let language_original: String = match find_language_match(
            &mod_directory.subdirs,
            lang.language.as_str(),
        ) {
            Some(li) => {
                proof {
                    assert(cur[li as int] == mod_directory.subdirs@[li as int]@);
                }
                mod_directory.subdirs[li].name.clone()
            },
            None => lang.language.clone(),
        };
        proof {
            assert(language_original@ == {
                let li = spec_lang_match_index(cur, lv.language);
                if li >= 0 {
                    cur[li].name
                } else {
                    lv.language
                }
            });
        }
        let bundle_files = &lang.directories[di].files;
        proof {
            assert(bundle_files@.map_values(|f: FileEntry| f@) == lv.directories[di as int].files);
        }
        match find_subdir(&mod_directory.subdirs, language_original.as_str()) {
            Some(ti) => {
                proof {
                    assert(cur[ti as int] == mod_directory.subdirs@[ti as int]@);
                }
                let base = clone_files(&mod_directory.subdirs[ti].files);
                let merged = overlay_files(base, bundle_files);
                let newdir = Subdir {
                    name: mod_directory.subdirs[ti].name.clone(),
                    files: merged,
                };
                let ghost ndv = newdir@;
                proof {
                    assert(ndv == (SubdirV {
                        name: cur[ti as int].name,
                        files: spec_overlay(cur[ti as int].files, lv.directories[di as int].files),
                    }));
                }
                set_subdir(&mut mod_directory.subdirs, ti, newdir);
                proof {
                    assert(mod_directory@.subdirs =~= spec_apply_language(cur, lv, m));
                }
            },
            None => {
                let empty_base: Vec<FileEntry> = Vec::new();
                proof {
                    assert(empty_base@.map_values(|f: FileEntry| f@) =~= Seq::<FileV>::empty());
                }
                let merged = overlay_files(empty_base, bundle_files);
                let ghost pre = mod_directory@.subdirs;
                let newdir = Subdir { name: language_original, files: merged };
                let ghost ndv = newdir@;
                mod_directory.subdirs.push(newdir);
                proof {
                    assert(mod_directory@.subdirs =~= pre.push(ndv));
                    assert(mod_directory@.subdirs =~= spec_apply_language(cur, lv, m));
                }
            },
        }
        l = l + 1;
    }
    proof {
        assert(langs.take(l as int) =~= langs);
    }
}

/// What orphan cleanup keeps, exactly: a kept file is one of the original
/// files, a kept `.cfg` file has an English counterpart, and every file
/// that is not an orphaned translation survives.
pub proof fn lemma_clean_files_exact(files: Seq<FileV>, en_names: Seq<Seq<char>>)
    ensures
        forall|k: int|
            0 <= k < spec_clean_files(files, en_names).len() ==> files.contains(
                #[trigger] spec_clean_files(files, en_names)[k],
            ) && (spec_is_cfg_name(spec_clean_files(files, en_names)[k].name) ==> en_names.contains(
                spec_clean_files(files, en_names)[k].name,
            )),
        forall|j: int|
            0 <= j < files.len() && (!spec_is_cfg_name((#[trigger] files[j]).name)
                || en_names.contains(files[j].name)) ==> spec_clean_files(
                files,
                en_names,
            ).contains(files[j]),
    decreases files.len(),
{
    if files.len() == 0 {
    } else {
        lemma_clean_files_exact(files.drop_first(), en_names);
        let rest = spec_clean_files(files.drop_first(), en_names);
        let cf = spec_clean_files(files, en_names);
        assert(forall|k: int|
            0 <= k < rest.len() ==> files.drop_first().contains(#[trigger] rest[k]));
        assert(forall|k: int|
            0 <= k < files.drop_first().len() ==> files.contains(
                #[trigger] files.drop_first()[k],
            )) by {
            assert(forall|k: int|
                0 <= k < files.drop_first().len() ==> #[trigger] files.drop_first()[k] == files[k
                    + 1]);
        }
        assert(forall|k: int| 0 <= k < rest.len() ==> files.contains(#[trigger] rest[k]));
        if !spec_is_cfg_name(files[0].name) || en_names.contains(files[0].name) {
            assert(cf == seq![files[0]] + rest);
            assert(cf[0] == files[0]);
            assert(forall|k: int| 1 <= k < cf.len() ==> #[trigger] cf[k] == rest[k - 1]);
            assert(forall|j: int|
                0 <= j < files.len() && (!spec_is_cfg_name((#[trigger] files[j]).name)
                    || en_names.contains(files[j].name)) ==> cf.contains(files[j])) by {
                assert forall|j: int|
                    0 <= j < files.len() && (!spec_is_cfg_name((#[trigger] files[j]).name)
                        || en_names.contains(files[j].name)) implies cf.contains(files[j]) by {
                    if j == 0 {
                        assert(cf[0] == files[0]);
                    } else {
                        assert(files.drop_first()[j - 1] == files[j]);
                        assert(rest.contains(files[j]));
                        let w = choose|w: int| 0 <= w < rest.len() && rest[w] == files[j];
                        assert(cf[w + 1] == files[j]);
                    }
                }
            }
        } else {
            assert(cf == rest);
            assert forall|j: int|
                0 <= j < files.len() && (!spec_is_cfg_name((#[trigger] files[j]).name)
                    || en_names.contains(files[j].name)) implies cf.contains(files[j]) by {
                assert(j != 0);
                assert(files.drop_first()[j - 1] == files[j]);
            }
        }
    }
}

/// Orphan cleanup of a file list is idempotent.
pub proof fn lemma_clean_files_idempotent(files: Seq<FileV>, en_names: Seq<Seq<char>>)
    ensures
        spec_clean_files(spec_clean_files(files, en_names), en_names) == spec_clean_files(
            files,
            en_names,
        ),
    decreases files.len(),
{
    if files.len() == 0 {
        assert(spec_clean_files(Seq::<FileV>::empty(), en_names) =~= Seq::<FileV>::empty());
    } else {
        lemma_clean_files_idempotent(files.drop_first(), en_names);
        let rest = spec_clean_files(files.drop_first(), en_names);
        if !spec_is_cfg_name(files[0].name) || en_names.contains(files[0].name) {
            let cf = seq![files[0]] + rest;
            assert(cf[0] == files[0]);
            assert(cf.drop_first() =~= rest);
        }
    }
}

/// Orphan cleanup of the whole tree is idempotent: running the cleanup a
/// second time with the same English names changes nothing.
pub proof fn lemma_clean_idempotent(
    dirs: Seq<SubdirV>,
    en_names: Seq<Seq<char>>,
    codes: Seq<Seq<char>>,
)
    ensures
        spec_clean(spec_clean(dirs, en_names, codes), en_names, codes) == spec_clean(
            dirs,
            en_names,
            codes,
        ),
    decreases dirs.len(),
{
    if dirs.len() == 0 {
        assert(spec_clean(Seq::<SubdirV>::empty(), en_names, codes) =~= Seq::<SubdirV>::empty());
    } else {
        lemma_clean_idempotent(dirs.drop_first(), en_names, codes);
        let rest = spec_clean(dirs.drop_first(), en_names, codes);
        let head = if spec_is_localization_dir(dirs[0].name, codes) {
            SubdirV { name: dirs[0].name, files: spec_clean_files(dirs[0].files, en_names) }
        } else {
            dirs[0]
        };
        let c = seq![head] + rest;
        assert(c[0] == head);
        assert(c.drop_first() =~= rest);
        if spec_is_localization_dir(dirs[0].name, codes) {
            lemma_clean_files_idempotent(dirs[0].files, en_names);
        }
    }
}

/// No two files of the list share a name.
pub open spec fn spec_distinct_file_names(files: Seq<FileV>) -> bool {
    forall|i: int, j: int|
        0 <= i < j < files.len() ==> (#[trigger] files[i]).name != (#[trigger] files[j]).name
}

/// The found index of a name is its only occurrence when names are
/// distinct, and a found file bears the name looked up.
pub proof fn lemma_file_index(files: Seq<FileV>, name: Seq<char>)
    ensures
        spec_file_index(files, name) >= 0 ==> spec_file_index(files, name) < files.len() && files[
            spec_file_index(files, name)].name == name,
        spec_file_index(files, name) < 0 ==> forall|k: int|
            0 <= k < files.len() ==> (#[trigger] files[k]).name != name,
        spec_file_index(files, name) >= -1,
        forall|k: int| 0 <= k < spec_file_index(files, name) ==> (#[trigger] files[k]).name != name,
    decreases files.len(),
{
    if files.len() == 0 {
    } else {
        lemma_file_index(files.drop_first(), name);
        if files[0].name == name {
        } else {
            let r = spec_file_index(files.drop_first(), name);
            assert(forall|k: int|
                1 <= k < files.len() ==> #[trigger] files[k] == files.drop_first()[k - 1]);
        }
    }
}

/// Inserting a file keeps names distinct, leaves every other file alone,
/// and leaves the inserted value at the index of its name.
pub proof fn lemma_insert_file(files: Seq<FileV>, f: FileV)
    requires
        spec_distinct_file_names(files),
    ensures
        spec_distinct_file_names(spec_insert_file(files, f)),
        spec_file_index(spec_insert_file(files, f), f.name) >= 0,
        spec_insert_file(files, f)[spec_file_index(spec_insert_file(files, f), f.name)] == f,
        forall|n: Seq<char>|
            n != f.name ==> #[trigger] spec_file_index(spec_insert_file(files, f), n)
                == spec_file_index(files, n),
        forall|n: Seq<char>|
            n != f.name && spec_file_index(files, n) >= 0 ==> #[trigger] spec_insert_file(
                files,
                f,
            )[spec_file_index(files, n)] == files[spec_file_index(files, n)],
{
    lemma_file_index(files, f.name);
    let i = spec_file_index(files, f.name);
    let out = spec_insert_file(files, f);
    assert forall|n: Seq<char>| n != f.name && spec_file_index(files, n) >= 0 implies #[trigger] out[
        spec_file_index(files, n)] == files[spec_file_index(files, n)] by {
        let k = spec_file_index(files, n);
        lemma_file_index(files, n);
        assert(files[k].name == n);
        if i >= 0 {
            assert(out == files.update(i, f));
            assert(k != i);
        } else {
            assert(out == files.push(f));
        }
    }
    if i >= 0 {
        assert(out == files.update(i, f));
        assert forall|n: Seq<char>| n != f.name implies #[trigger] spec_file_index(out, n)
            == spec_file_index(files, n) by {
            lemma_index_update_other(files, i, f, n);
        }
        lemma_file_index(out, f.name);
        let oi = spec_file_index(out, f.name);
        assert(oi >= 0) by {
            assert(out[i].name == f.name);
            lemma_index_of_present(out, f.name, i);
        }
        assert(oi == i) by {
            if oi < i {
                assert(out[oi].name == f.name);
                assert(out[oi] == files[oi]);
                assert(files[oi].name == f.name);
                assert(false);
            }
            if oi > i {
                assert(out[i].name == f.name);
                assert(false);
            }
        }
        assert(spec_distinct_file_names(out)) by {
            assert forall|a: int, b: int| 0 <= a < b < out.len() implies (#[trigger] out[a]).name
                != (#[trigger] out[b]).name by {
                if a != i && b != i {
                    assert(out[a] == files[a] && out[b] == files[b]);
                } else if a == i {
                    assert(out[b] == files[b]);
                    if files[b].name == f.name {
                        assert(false);
                    }
                } else {
                    assert(out[a] == files[a]);
                    if files[a].name == f.name {
                        assert(i < a || i > a || i == a);
                        assert(files[i].name == f.name);
                        assert(false);
                    }
                }
            }
        }
    } else {
        assert(out == files.push(f));
        assert(forall|k: int| 0 <= k < files.len() ==> #[trigger] out[k] == files[k]);
        assert(out[files.len() as int] == f);
        assert forall|n: Seq<char>| n != f.name implies #[trigger] spec_file_index(out, n)
            == spec_file_index(files, n) by {
            lemma_index_push_other(files, f, n);
        }
        lemma_file_index(out, f.name);
        let oi = spec_file_index(out, f.name);
        assert(oi >= 0) by {
            lemma_index_of_present(out, f.name, files.len() as int);
        }
        assert(oi == files.len()) by {
            if oi < files.len() {
                assert(out[oi] == files[oi]);
                assert(files[oi].name == f.name);
                assert(false);
            }
        }
        assert(spec_distinct_file_names(out)) by {
            assert forall|a: int, b: int| 0 <= a < b < out.len() implies (#[trigger] out[a]).name
                != (#[trigger] out[b]).name by {
                if b < files.len() {
                    assert(out[a] == files[a] && out[b] == files[b]);
                } else {
                    assert(out[a] == files[a] && out[b] == f);
                    if files[a].name == f.name {
                        assert(false);
                    }
                }
            }
        }
    }
}

/// A name present at some index is found.
proof fn lemma_index_of_present(files: Seq<FileV>, name: Seq<char>, at: int)
    requires
        0 <= at < files.len(),
        files[at].name == name,
    ensures
        spec_file_index(files, name) >= 0,
    decreases files.len(),
{
    if files[0].name == name {
    } else {
        assert(files.drop_first()[at - 1] == files[at]);
        lemma_index_of_present(files.drop_first(), name, at - 1);
    }
}

/// Updating one file does not move any other name.
proof fn lemma_index_update_other(files: Seq<FileV>, i: int, f: FileV, n: Seq<char>)
    requires
        0 <= i < files.len(),
        n != f.name,
        files[i].name == f.name,
    ensures
        spec_file_index(files.update(i, f), n) == spec_file_index(files, n),
    decreases files.len(),
{
    let out = files.update(i, f);
    assert(spec_file_index(Seq::<FileV>::empty(), n) == -1);
    if files.len() == 0 {
    } else if i == 0 {
        assert(out[0] == f);
        assert(files[0].name != n);
        assert(out.drop_first() =~= files.drop_first());
        assert(spec_file_index(out, n) == {
            let r = spec_file_index(files.drop_first(), n);
            if r < 0 { -1 } else { r + 1 }
        });
        assert(spec_file_index(files, n) == {
            let r = spec_file_index(files.drop_first(), n);
            if r < 0 { -1 } else { r + 1 }
        });
    } else {
        assert(out[0] == files[0]);
        assert(out.drop_first() =~= files.drop_first().update(i - 1, f));
        if files[0].name == n {
        } else {
            lemma_index_update_other(files.drop_first(), i - 1, f, n);
        }
    }
}

/// Appending a file does not move any other name.
proof fn lemma_index_push_other(files: Seq<FileV>, f: FileV, n: Seq<char>)
    requires
        n != f.name,
    ensures
        spec_file_index(files.push(f), n) == spec_file_index(files, n),
    decreases files.len(),
{
    let out = files.push(f);
    assert(spec_file_index(Seq::<FileV>::empty(), n) == -1);
    if files.len() == 0 {
        assert(out[0] == f);
        assert(out.drop_first() =~= Seq::<FileV>::empty());
        assert(spec_file_index(out, n) == -1);
    } else {
        assert(out[0] == files[0]);
        assert(out.drop_first() =~= files.drop_first().push(f));
        if files[0].name == n {
        } else {
            lemma_index_push_other(files.drop_first(), f, n);
            assert(spec_file_index(out, n) == {
                let r = spec_file_index(files.drop_first().push(f), n);
                if r < 0 { -1 } else { r + 1 }
            });
        }
    }
}

/// A folder absorbs a bundle directory when every renamed bundle file is
/// already present under its name with its content.
pub open spec fn spec_absorbed(files: Seq<FileV>, bundle_files: Seq<FileV>) -> bool {
    forall|k: int|
        0 <= k < bundle_files.len() ==> {
            let f = spec_renamed(#[trigger] bundle_files[k]);
            spec_file_index(files, f.name) >= 0 && files[spec_file_index(files, f.name)] == f
        }
}

/// After an overlay the folder absorbs the bundle directory, names stay
/// distinct, and files of other names stay put.
proof fn lemma_overlay_absorbs(files: Seq<FileV>, bundle_files: Seq<FileV>)
    requires
        spec_distinct_file_names(files),
        forall|i: int, j: int|
            0 <= i < j < bundle_files.len() ==> spec_renamed(#[trigger] bundle_files[i]).name
                != spec_renamed(#[trigger] bundle_files[j]).name,
    ensures
        spec_distinct_file_names(spec_overlay(files, bundle_files)),
        spec_absorbed(spec_overlay(files, bundle_files), bundle_files),
    decreases bundle_files.len(),
{
    if bundle_files.len() == 0 {
    } else {
        let f0 = spec_renamed(bundle_files[0]);
        let mid = spec_insert_file(files, f0);
        lemma_insert_file(files, f0);
        lemma_overlay_absorbs(mid, bundle_files.drop_first());
        let out = spec_overlay(files, bundle_files);
        assert(out == spec_overlay(mid, bundle_files.drop_first()));
        // Files of names untouched by the rest of the bundle keep their
        // place through the remaining overlay.
        lemma_overlay_keeps_other(mid, bundle_files.drop_first(), f0.name);
        assert(spec_file_index(mid, f0.name) >= 0 && mid[spec_file_index(mid, f0.name)] == f0);
        assert forall|k: int| 0 <= k < bundle_files.len() implies {
            let f = spec_renamed(#[trigger] bundle_files[k]);
            spec_file_index(out, f.name) >= 0 && out[spec_file_index(out, f.name)] == f
        } by {
            if k == 0 {
            } else {
                assert(bundle_files.drop_first()[k - 1] == bundle_files[k]);
            }
        }
    }
}

/// An overlay does not move or change the file of a name that no renamed
/// bundle file bears.
proof fn lemma_overlay_keeps_other(files: Seq<FileV>, bundle_files: Seq<FileV>, n: Seq<char>)
    requires
        spec_distinct_file_names(files),
        forall|k: int| 0 <= k < bundle_files.len() ==> spec_renamed(#[trigger] bundle_files[k]).name
            != n,
    ensures
        spec_file_index(spec_overlay(files, bundle_files), n) == spec_file_index(files, n),
        spec_file_index(files, n) >= 0 ==> spec_overlay(files, bundle_files)[spec_file_index(
            files,
            n,
        )] == files[spec_file_index(files, n)],
        spec_distinct_file_names(spec_overlay(files, bundle_files)),
    decreases bundle_files.len(),
{
    if bundle_files.len() == 0 {
    } else {
        let f0 = spec_renamed(bundle_files[0]);
        let mid = spec_insert_file(files, f0);
        lemma_insert_file(files, f0);
        assert(forall|k: int|
            0 <= k < bundle_files.drop_first().len() ==> #[trigger] bundle_files.drop_first()[k]
                == bundle_files[k + 1]);
        lemma_overlay_keeps_other(mid, bundle_files.drop_first(), n);
        lemma_file_index(files, n);
        if spec_file_index(files, n) >= 0 {
            let i = spec_file_index(files, n);
            assert(spec_file_index(mid, n) == i);
            assert(mid[i] == files[i]) by {
                lemma_file_index(files, f0.name);
                if spec_file_index(files, f0.name) >= 0 {
                    assert(mid == files.update(spec_file_index(files, f0.name), f0));
                    assert(spec_file_index(files, f0.name) != i);
                } else {
                    assert(mid == files.push(f0));
                }
            }
        }
    }
}

/// Overlaying the same bundle directory twice leaves the folder as after
/// one overlay: the merge of one language's files is idempotent, provided
/// the folder's and the bundle directory's file names are distinct.
pub proof fn lemma_overlay_idempotent(files: Seq<FileV>, bundle_files: Seq<FileV>)
    requires
        spec_distinct_file_names(files),
        forall|i: int, j: int|
            0 <= i < j < bundle_files.len() ==> spec_renamed(#[trigger] bundle_files[i]).name
                != spec_renamed(#[trigger] bundle_files[j]).name,
    ensures
        spec_overlay(spec_overlay(files, bundle_files), bundle_files) == spec_overlay(
            files,
            bundle_files,
        ),
{
    lemma_overlay_absorbs(files, bundle_files);
    lemma_overlay_noop(spec_overlay(files, bundle_files), bundle_files);
}

/// Overlaying an absorbed bundle directory changes nothing.
proof fn lemma_overlay_noop(files: Seq<FileV>, bundle_files: Seq<FileV>)
    requires
        spec_distinct_file_names(files),
        spec_absorbed(files, bundle_files),
    ensures
        spec_overlay(files, bundle_files) == files,
    decreases bundle_files.len(),
{
    if bundle_files.len() == 0 {
    } else {
        let f0 = spec_renamed(bundle_files[0]);
        lemma_file_index(files, f0.name);
        let i = spec_file_index(files, f0.name);
        assert(i >= 0 && files[i] == f0);
        assert(spec_insert_file(files, f0) =~= files) by {
            assert(files.update(i, f0) =~= files);
        }
        assert(forall|k: int|
            0 <= k < bundle_files.drop_first().len() ==> #[trigger] bundle_files.drop_first()[k]
                == bundle_files[k + 1]);
        lemma_overlay_noop(files, bundle_files.drop_first());
    }
}

/// No two subdirectories of the tree share a name.
pub open spec fn spec_distinct_subdir_names(dirs: Seq<SubdirV>) -> bool {
    forall|i: int, j: int|
        0 <= i < j < dirs.len() ==> (#[trigger] dirs[i]).name != (#[trigger] dirs[j]).name
}

/// Every `.cfg` file of the list has an English counterpart.
pub open spec fn spec_files_clean(files: Seq<FileV>, en_names: Seq<Seq<char>>) -> bool {
    forall|k: int|
        0 <= k < files.len() && spec_is_cfg_name((#[trigger] files[k]).name) ==> en_names.contains(
            files[k].name,
        )
}

/// The found subdirectory index points at the name looked up, earlier
/// entries bear other names, and absence means no entry bears it.
pub proof fn lemma_subdir_index(dirs: Seq<SubdirV>, name: Seq<char>)
    ensures
        spec_subdir_index(dirs, name) >= 0 ==> spec_subdir_index(dirs, name) < dirs.len() && dirs[
            spec_subdir_index(dirs, name)].name == name,
        spec_subdir_index(dirs, name) < 0 ==> forall|k: int|
            0 <= k < dirs.len() ==> (#[trigger] dirs[k]).name != name,
        forall|k: int|
            0 <= k < spec_subdir_index(dirs, name) ==> (#[trigger] dirs[k]).name != name,
    decreases dirs.len(),
{
    if dirs.len() == 0 {
    } else {
        lemma_subdir_index(dirs.drop_first(), name);
        if dirs[0].name == name {
        } else {
            assert(forall|k: int|
                1 <= k < dirs.len() ==> #[trigger] dirs[k] == dirs.drop_first()[k - 1]);
        }
    }
}

/// The found language-match index points at a matching folder, earlier
/// entries do not match, and absence means no folder matches.
pub proof fn lemma_lang_match_index(dirs: Seq<SubdirV>, language: Seq<char>)
    ensures
        spec_lang_match_index(dirs, language) >= 0 ==> spec_lang_match_index(dirs, language)
            < dirs.len() && spec_normalize_language_code(
            dirs[spec_lang_match_index(dirs, language)].name,
        ) == language,
        spec_lang_match_index(dirs, language) < 0 ==> forall|k: int|
            0 <= k < dirs.len() ==> spec_normalize_language_code((#[trigger] dirs[k]).name)
                != language,
        forall|k: int|
            0 <= k < spec_lang_match_index(dirs, language) ==> spec_normalize_language_code(
                (#[trigger] dirs[k]).name,
            ) != language,
    decreases dirs.len(),
{
    if dirs.len() == 0 {
    } else {
        lemma_lang_match_index(dirs.drop_first(), language);
        if spec_normalize_language_code(dirs[0].name) == language {
        } else {
            assert(forall|k: int|
                1 <= k < dirs.len() ==> #[trigger] dirs[k] == dirs.drop_first()[k - 1]);
        }
    }
}

/// Orphan cleanup keeps the tree's length and every name, cleans exactly
/// the language folders, and leaves the others untouched.
pub proof fn lemma_clean_shape(dirs: Seq<SubdirV>, en_names: Seq<Seq<char>>, codes: Seq<Seq<char>>)
    ensures
        spec_clean(dirs, en_names, codes).len() == dirs.len(),
        forall|j: int|
            0 <= j < dirs.len() ==> (#[trigger] spec_clean(dirs, en_names, codes)[j]).name
                == dirs[j].name,
        forall|j: int|
            0 <= j < dirs.len() && spec_is_localization_dir((#[trigger] dirs[j]).name, codes)
                ==> spec_clean(dirs, en_names, codes)[j].files == spec_clean_files(
                dirs[j].files,
                en_names,
            ),
        forall|j: int|
            0 <= j < dirs.len() && !spec_is_localization_dir((#[trigger] dirs[j]).name, codes)
                ==> spec_clean(dirs, en_names, codes)[j] == dirs[j],
    decreases dirs.len(),
{
    if dirs.len() == 0 {
    } else {
        lemma_clean_shape(dirs.drop_first(), en_names, codes);
        let c = spec_clean(dirs, en_names, codes);
        let rest = spec_clean(dirs.drop_first(), en_names, codes);
        assert(forall|j: int| 1 <= j < c.len() ==> #[trigger] c[j] == rest[j - 1]);
        assert(forall|j: int|
            1 <= j < dirs.len() ==> #[trigger] dirs[j] == dirs.drop_first()[j - 1]);
    }
}

/// What orphan cleanup of a file list leaves is clean, stays clean when it
/// already was, and keeps names distinct.
pub proof fn lemma_clean_files_facts(files: Seq<FileV>, en_names: Seq<Seq<char>>)
    ensures
        spec_files_clean(spec_clean_files(files, en_names), en_names),
        spec_files_clean(files, en_names) ==> spec_clean_files(files, en_names) == files,
        spec_distinct_file_names(files) ==> spec_distinct_file_names(
            spec_clean_files(files, en_names),
        ),
    decreases files.len(),
{
    lemma_clean_files_exact(files, en_names);
    if files.len() == 0 {
        assert(spec_clean_files(files, en_names) =~= files);
    } else {
        lemma_clean_files_facts(files.drop_first(), en_names);
        let rest = spec_clean_files(files.drop_first(), en_names);
        let cf = spec_clean_files(files, en_names);
        assert(forall|k: int|
            1 <= k < files.len() ==> #[trigger] files[k] == files.drop_first()[k - 1]);
        if !spec_is_cfg_name(files[0].name) || en_names.contains(files[0].name) {
            assert(cf == seq![files[0]] + rest);
            assert(cf[0] == files[0]);
            assert(forall|k: int| 1 <= k < cf.len() ==> #[trigger] cf[k] == rest[k - 1]);
            if spec_files_clean(files, en_names) {
                assert(spec_files_clean(files.drop_first(), en_names));
                assert(cf =~= files);
            }
            if spec_distinct_file_names(files) {
                assert(spec_distinct_file_names(files.drop_first()));
                // Every kept file is one of the dropped-first originals, so
                // the head's name collides with none of them.
                assert forall|a: int, b: int| 0 <= a < b < cf.len() implies (#[trigger] cf[a]).name
                    != (#[trigger] cf[b]).name by {
                    if a == 0 {
                        lemma_clean_files_exact(files.drop_first(), en_names);
                        assert(files.drop_first().contains(rest[b - 1]));
                        let w = choose|w: int|
                            0 <= w < files.drop_first().len() && files.drop_first()[w] == rest[b
                                - 1];
                        assert(files[w + 1] == rest[b - 1]);
                        assert(files[0].name != files[w + 1].name);
                    }
                }
            }
        } else {
            assert(cf == rest);
            if spec_files_clean(files, en_names) {
                assert(spec_is_cfg_name(files[0].name) && !en_names.contains(files[0].name));
                assert(false);
            }
            if spec_distinct_file_names(files) {
                assert(spec_distinct_file_names(files.drop_first()));
            }
        }
    }
}

/// A bundle language in canonical form, other than the source language.
pub open spec fn spec_lang_ok(lang: BundleLangV) -> bool {
    spec_normalize_language_code(lang.language) == lang.language && lang.language != "en"@
}

/// The bundle's files for this mod in one language carry pairwise distinct
/// repository names, and each is either no translation file or has an
/// English counterpart.
pub open spec fn spec_bundle_files_ok(
    lang: BundleLangV,
    m: ModInfoView,
    en_names: Seq<Seq<char>>,
) -> bool {
    let files = spec_bundle_mod_files(lang, m);
    &&& forall|i: int, j: int|
        0 <= i < j < files.len() ==> spec_renamed(#[trigger] files[i]).name != spec_renamed(
            #[trigger] files[j],
        ).name
    &&& forall|k: int|
        0 <= k < files.len() ==> !spec_is_cfg_name(spec_renamed(#[trigger] files[k]).name)
            || en_names.contains(spec_renamed(files[k]).name)
}

/// A well-formed tree: subdirectory names distinct, file names distinct in
/// each folder, and every language folder free of orphaned translations.
pub open spec fn spec_tree_ok(
    dirs: Seq<SubdirV>,
    en_names: Seq<Seq<char>>,
    codes: Seq<Seq<char>>,
) -> bool {
    &&& spec_distinct_subdir_names(dirs)
    &&& forall|d: int|
        0 <= d < dirs.len() ==> spec_distinct_file_names((#[trigger] dirs[d]).files)
    &&& forall|d: int|
        0 <= d < dirs.len() && spec_is_localization_dir((#[trigger] dirs[d]).name, codes)
            ==> spec_files_clean(dirs[d].files, en_names)
}

/// Whether merging this language actually touches the tree: the language is
/// enabled for the mod and the bundle holds a non-empty directory for it.
pub open spec fn spec_merge_applies(lang: BundleLangV, m: ModInfoView) -> bool {
    &&& spec_language_enabled(m, lang.language)
    &&& spec_bundle_dir_index(lang.directories, spec_crowdin_directory_name(m)) >= 0
    &&& spec_bundle_mod_files(lang, m).len() > 0
}

/// The folder name this language's files land under: the first local folder
/// spelling the language, or the canonical code itself.
pub open spec fn spec_target_name(dirs: Seq<SubdirV>, lang: BundleLangV) -> Seq<char> {
    let li = spec_lang_match_index(dirs, lang.language);
    if li >= 0 {
        dirs[li].name
    } else {
        lang.language
    }
}

/// An overlay of files that all have English counterparts keeps a folder
/// clean.
proof fn lemma_overlay_keeps_clean(
    files: Seq<FileV>,
    bundle_files: Seq<FileV>,
    en_names: Seq<Seq<char>>,
)
    requires
        spec_files_clean(files, en_names),
        forall|k: int|
            0 <= k < bundle_files.len() ==> !spec_is_cfg_name(
                spec_renamed(#[trigger] bundle_files[k]).name,
            ) || en_names.contains(spec_renamed(bundle_files[k]).name),
    ensures
        spec_files_clean(spec_overlay(files, bundle_files), en_names),
    decreases bundle_files.len(),
{
    if bundle_files.len() == 0 {
    } else {
        let f0 = spec_renamed(bundle_files[0]);
        let mid = spec_insert_file(files, f0);
        assert(spec_files_clean(mid, en_names)) by {
            lemma_file_index(files, f0.name);
            let i = spec_file_index(files, f0.name);
            if i >= 0 {
                assert(forall|k: int|
                    0 <= k < mid.len() && k != i ==> #[trigger] mid[k] == files[k]);
                assert(mid[i] == f0);
            } else {
                assert(forall|k: int|
                    0 <= k < files.len() ==> #[trigger] mid[k] == files[k]);
                assert(mid[files.len() as int] == f0);
            }
        }
        assert(forall|k: int|
            0 <= k < bundle_files.drop_first().len() ==> #[trigger] bundle_files.drop_first()[k]
                == bundle_files[k + 1]);
        lemma_overlay_keeps_clean(mid, bundle_files.drop_first(), en_names);
    }
}

/// Two trees with the same names in the same places resolve every name to
/// the same index.
proof fn lemma_subdir_index_names(a: Seq<SubdirV>, b: Seq<SubdirV>, name: Seq<char>)
    requires
        a.len() == b.len(),
        forall|j: int| 0 <= j < a.len() ==> (#[trigger] a[j]).name == b[j].name,
    ensures
        spec_subdir_index(a, name) == spec_subdir_index(b, name),
    decreases a.len(),
{
    if a.len() == 0 {
    } else {
        assert(forall|j: int| 1 <= j < a.len() ==> #[trigger] a[j] == a.drop_first()[j - 1]);
        assert(forall|j: int| 1 <= j < b.len() ==> #[trigger] b[j] == b.drop_first()[j - 1]);
        assert(forall|j: int|
            0 <= j < a.drop_first().len() ==> (#[trigger] a.drop_first()[j]).name
                == b.drop_first()[j].name);
        lemma_subdir_index_names(a.drop_first(), b.drop_first(), name);
    }
}

/// Likewise for the language-match scan.
proof fn lemma_lang_match_index_names(a: Seq<SubdirV>, b: Seq<SubdirV>, language: Seq<char>)
    requires
        a.len() == b.len(),
        forall|j: int| 0 <= j < a.len() ==> (#[trigger] a[j]).name == b[j].name,
    ensures
        spec_lang_match_index(a, language) == spec_lang_match_index(b, language),
    decreases a.len(),
{
    if a.len() == 0 {
    } else {
        assert(forall|j: int| 1 <= j < a.len() ==> #[trigger] a[j] == a.drop_first()[j - 1]);
        assert(forall|j: int| 1 <= j < b.len() ==> #[trigger] b[j] == b.drop_first()[j - 1]);
        assert(forall|j: int|
            0 <= j < a.drop_first().len() ==> (#[trigger] a.drop_first()[j]).name
                == b.drop_first()[j].name);
        lemma_lang_match_index_names(a.drop_first(), b.drop_first(), language);
    }
}

/// A subdirectory index scan finds a present name.
proof fn lemma_subdir_present(dirs: Seq<SubdirV>, name: Seq<char>, at: int)
    requires
        0 <= at < dirs.len(),
        dirs[at].name == name,
    ensures
        spec_subdir_index(dirs, name) >= 0,
    decreases dirs.len(),
{
    if dirs[0].name == name {
    } else {
        assert(dirs.drop_first()[at - 1] == dirs[at]);
        lemma_subdir_present(dirs.drop_first(), name, at - 1);
    }
}

/// Appending a subdirectory whose name normalizes to another language, and
/// bears another name, changes neither scan.
proof fn lemma_scans_after_push(dirs: Seq<SubdirV>, d: SubdirV, name: Seq<char>, language: Seq<
    char>)
    requires
        d.name != name,
        spec_normalize_language_code(d.name) != language,
    ensures
        spec_subdir_index(dirs.push(d), name) == spec_subdir_index(dirs, name),
        spec_lang_match_index(dirs.push(d), language) == spec_lang_match_index(dirs, language),
    decreases dirs.len(),
{
    let out = dirs.push(d);
    assert(spec_subdir_index(Seq::<SubdirV>::empty(), name) == -1);
    assert(spec_lang_match_index(Seq::<SubdirV>::empty(), language) == -1);
    if dirs.len() == 0 {
        assert(out[0] == d);
        assert(out.drop_first() =~= Seq::<SubdirV>::empty());
        assert(spec_subdir_index(out, name) == -1);
        assert(spec_lang_match_index(out, language) == -1);
    } else {
        assert(out[0] == dirs[0]);
        assert(out.drop_first() =~= dirs.drop_first().push(d));
        lemma_scans_after_push(dirs.drop_first(), d, name, language);
        assert(spec_subdir_index(out, name) == {
            if out[0].name == name {
                0int
            } else {
                let r = spec_subdir_index(out.drop_first(), name);
                if r < 0 { -1int } else { r + 1 }
            }
        });
        assert(spec_lang_match_index(out, language) == {
            if spec_normalize_language_code(out[0].name) == language {
                0int
            } else {
                let r = spec_lang_match_index(out.drop_first(), language);
                if r < 0 { -1int } else { r + 1 }
            }
        });
    }
}

/// Appending a folder that matches the language, to a tree without one,
/// makes it the first match; likewise for the plain name scan.
proof fn lemma_scans_after_matching_push(dirs: Seq<SubdirV>, d: SubdirV, language: Seq<char>)
    requires
        spec_lang_match_index(dirs, language) < 0,
        spec_subdir_index(dirs, d.name) < 0,
        spec_normalize_language_code(d.name) == language,
    ensures
        spec_lang_match_index(dirs.push(d), language) == dirs.len(),
        spec_subdir_index(dirs.push(d), d.name) == dirs.len(),
    decreases dirs.len(),
{
    let out = dirs.push(d);
    if dirs.len() == 0 {
        assert(out[0] == d);
    } else {
        assert(out[0] == dirs[0]);
        assert(out.drop_first() =~= dirs.drop_first().push(d));
        lemma_scans_after_matching_push(dirs.drop_first(), d, language);
    }
}

/// What one language's merge does to a well-formed tree: nothing when the
/// merge does not apply; otherwise one folder is overlaid in place or one
/// new folder is appended.  The tree stays well-formed either way.
proof fn lemma_apply_language_step(
    dirs: Seq<SubdirV>,
    lang: BundleLangV,
    m: ModInfoView,
    en_names: Seq<Seq<char>>,
    codes: Seq<Seq<char>>,
)
    requires
        spec_tree_ok(dirs, en_names, codes),
        spec_lang_ok(lang),
        spec_bundle_files_ok(lang, m, en_names),
    ensures
        spec_tree_ok(spec_apply_language(dirs, lang, m), en_names, codes),
        !spec_merge_applies(lang, m) ==> spec_apply_language(dirs, lang, m) == dirs,
        spec_merge_applies(lang, m) ==> {
            let tn = spec_target_name(dirs, lang);
            let ti = spec_subdir_index(dirs, tn);
            let bfiles = spec_bundle_mod_files(lang, m);
            &&& spec_normalize_language_code(tn) == lang.language
            &&& (ti >= 0 ==> spec_apply_language(dirs, lang, m) == dirs.update(
                ti,
                SubdirV { name: dirs[ti].name, files: spec_overlay(dirs[ti].files, bfiles) },
            ))
            &&& (ti < 0 ==> tn == lang.language && spec_apply_language(dirs, lang, m)
                == dirs.push(
                SubdirV { name: lang.language, files: spec_overlay(Seq::empty(), bfiles) },
            ))
        },
{
    let r = spec_apply_language(dirs, lang, m);
    if !spec_merge_applies(lang, m) {
        assert(r == dirs);
    } else {
        let li = spec_lang_match_index(dirs, lang.language);
        let tn = spec_target_name(dirs, lang);
        let ti = spec_subdir_index(dirs, tn);
        let bfiles = spec_bundle_mod_files(lang, m);
        lemma_lang_match_index(dirs, lang.language);
        lemma_subdir_index(dirs, tn);
        assert(spec_normalize_language_code(tn) == lang.language) by {
            if li >= 0 {
                assert(tn == dirs[li].name);
            }
        }
        if li >= 0 {
            lemma_subdir_present(dirs, dirs[li].name, li);
            assert(ti >= 0);
        }
        if ti >= 0 {
            assert(dirs[ti].name == tn);
            assert(r == dirs.update(
                ti,
                SubdirV { name: dirs[ti].name, files: spec_overlay(dirs[ti].files, bfiles) },
            ));
            lemma_overlay_absorbs(dirs[ti].files, bfiles);
            if spec_is_localization_dir(dirs[ti].name, codes) {
                lemma_overlay_keeps_clean(dirs[ti].files, bfiles, en_names);
            }
            assert(spec_tree_ok(r, en_names, codes)) by {
                assert(forall|j: int| 0 <= j < r.len() && j != ti ==> #[trigger] r[j] == dirs[j]);
                assert(r[ti].name == dirs[ti].name);
                assert(forall|i: int, j: int|
                    0 <= i < j < r.len() ==> (#[trigger] r[i]).name != (#[trigger] r[j]).name)
                    by {
                    assert(forall|j: int| 0 <= j < r.len() ==> (#[trigger] r[j]).name
                        == dirs[j].name);
                }
            }
        } else {
            assert(tn == lang.language);
            let d = SubdirV { name: lang.language, files: spec_overlay(Seq::empty(), bfiles) };
            assert(r == dirs.push(d));
            assert(spec_distinct_file_names(Seq::<FileV>::empty()));
            lemma_overlay_absorbs(Seq::empty(), bfiles);
            assert(spec_files_clean(Seq::<FileV>::empty(), en_names));
            lemma_overlay_keeps_clean(Seq::empty(), bfiles, en_names);
            assert(spec_tree_ok(r, en_names, codes)) by {
                assert(forall|j: int| 0 <= j < dirs.len() ==> #[trigger] r[j] == dirs[j]);
                assert(r[dirs.len() as int] == d);
                assert(forall|i: int, j: int|
                    0 <= i < j < r.len() ==> (#[trigger] r[i]).name != (#[trigger] r[j]).name)
                    by {
                    assert forall|i: int, j: int| 0 <= i < j < r.len() implies (
                    #[trigger] r[i]).name != (#[trigger] r[j]).name by {
                        if j == dirs.len() {
                            assert(r[i] == dirs[i]);
                            assert(dirs[i].name != lang.language);
                        } else {
                            assert(r[i] == dirs[i] && r[j] == dirs[j]);
                        }
                    }
                }
            }
        }
    }
}

/// Merging another language leaves this language's folder resolution and
/// its resolved folder untouched.
proof fn lemma_step_preserves_other(
    dirs: Seq<SubdirV>,
    lang2: BundleLangV,
    lang: BundleLangV,
    m: ModInfoView,
    en_names: Seq<Seq<char>>,
    codes: Seq<Seq<char>>,
)
    requires
        spec_tree_ok(dirs, en_names, codes),
        spec_lang_ok(lang2),
        spec_lang_ok(lang),
        spec_bundle_files_ok(lang2, m, en_names),
        lang2.language != lang.language,
    ensures
        ({
            let r = spec_apply_language(dirs, lang2, m);
            &&& spec_lang_match_index(r, lang.language) == spec_lang_match_index(
                dirs,
                lang.language,
            )
            &&& spec_target_name(r, lang) == spec_target_name(dirs, lang)
            &&& spec_subdir_index(r, spec_target_name(dirs, lang)) == spec_subdir_index(
                dirs,
                spec_target_name(dirs, lang),
            )
            &&& (spec_subdir_index(dirs, spec_target_name(dirs, lang)) >= 0 ==> r[
                spec_subdir_index(dirs, spec_target_name(dirs, lang))].files == dirs[
                spec_subdir_index(dirs, spec_target_name(dirs, lang))].files)
        }),
{
    let r = spec_apply_language(dirs, lang2, m);
    let tn = spec_target_name(dirs, lang);
    let ti = spec_subdir_index(dirs, tn);
    lemma_apply_language_step(dirs, lang2, m, en_names, codes);
    lemma_lang_match_index(dirs, lang.language);
    lemma_subdir_index(dirs, tn);
    assert(spec_normalize_language_code(tn) == lang.language) by {
        let li = spec_lang_match_index(dirs, lang.language);
        if li >= 0 {
            assert(tn == dirs[li].name);
        }
    }
    if !spec_merge_applies(lang2, m) {
        assert(r == dirs);
    } else {
        let tn2 = spec_target_name(dirs, lang2);
        let ti2 = spec_subdir_index(dirs, tn2);
        lemma_subdir_index(dirs, tn2);
        assert(spec_normalize_language_code(tn2) == lang2.language);
        assert(tn != tn2);
        if ti2 >= 0 {
            // In-place overlay: all names stay, only the other language's
            // folder changes files.
            assert(r == dirs.update(
                ti2,
                SubdirV {
                    name: dirs[ti2].name,
                    files: spec_overlay(dirs[ti2].files, spec_bundle_mod_files(lang2, m)),
                },
            ));
            assert(forall|j: int|
                0 <= j < r.len() ==> (#[trigger] r[j]).name == dirs[j].name);
            lemma_lang_match_index_names(r, dirs, lang.language);
            lemma_subdir_index_names(r, dirs, tn);
            assert(spec_target_name(r, lang) == spec_target_name(dirs, lang)) by {
                let li = spec_lang_match_index(dirs, lang.language);
                if li >= 0 {
                    assert(r[li].name == dirs[li].name);
                }
            }
            if ti >= 0 {
                assert(dirs[ti2].name == tn2);
                assert(ti != ti2);
                assert(r[ti] == dirs[ti]);
            }
        } else {
            // A new folder was appended for the other language.
            let d = SubdirV {
                name: lang2.language,
                files: spec_overlay(Seq::empty(), spec_bundle_mod_files(lang2, m)),
            };
            assert(r == dirs.push(d));
            lemma_scans_after_push(dirs, d, lang.language, lang.language);
            lemma_scans_after_push(dirs, d, tn, lang.language);
            assert(spec_target_name(r, lang) == spec_target_name(dirs, lang)) by {
                let li = spec_lang_match_index(dirs, lang.language);
                if li >= 0 {
                    assert(r[li] == dirs[li]);
                }
            }
            if ti >= 0 {
                assert(r[ti] == dirs[ti]);
            }
        }
    }
}

/// The merge preserves the on-disk spelling of language folders: when some
/// local folder's name normalizes to the bundle language, the files land in
/// the first such folder, under its existing name, and no folder is
/// created; only when no local folder normalizes to the canonical code is a
/// new folder created under that code.
pub proof fn lemma_merge_keeps_folder_spelling(
    dirs: Seq<SubdirV>,
    lang: BundleLangV,
    m: ModInfoView,
)
    requires
        spec_distinct_subdir_names(dirs),
        spec_lang_ok(lang),
        spec_merge_applies(lang, m),
    ensures
        ({
            let li = spec_lang_match_index(dirs, lang.language);
            let r = spec_apply_language(dirs, lang, m);
            let bfiles = spec_bundle_mod_files(lang, m);
            &&& (li >= 0 ==> r == dirs.update(
                li,
                SubdirV { name: dirs[li].name, files: spec_overlay(dirs[li].files, bfiles) },
            ))
            &&& (li < 0 ==> r == dirs.push(
                SubdirV { name: lang.language, files: spec_overlay(Seq::empty(), bfiles) },
            ))
        }),
{
    let li = spec_lang_match_index(dirs, lang.language);
    let tn = spec_target_name(dirs, lang);
    let ti = spec_subdir_index(dirs, tn);
    lemma_lang_match_index(dirs, lang.language);
    lemma_subdir_index(dirs, tn);
    if li >= 0 {
        assert(tn == dirs[li].name);
        lemma_subdir_present(dirs, dirs[li].name, li);
        assert(ti >= 0);
        assert(dirs[ti].name == tn);
        assert(ti == li) by {
            if ti != li {
                assert(dirs[ti].name == dirs[li].name);
                assert(false);
            }
        }
    } else {
        assert(tn == lang.language);
        assert(ti < 0) by {
            if ti >= 0 {
                assert(dirs[ti].name == lang.language);
                assert(spec_normalize_language_code(dirs[ti].name) == lang.language);
                assert(false);
            }
        }
    }
}

/// The bundle languages suitable for repeated merging: each canonical and
/// distinct from the source language and from each other, each with
/// distinct repository file names that all have English counterparts.
pub open spec fn spec_langs_ok(
    langs: Seq<BundleLangV>,
    m: ModInfoView,
    en_names: Seq<Seq<char>>,
) -> bool {
    &&& forall|l: int|
        0 <= l < langs.len() ==> spec_lang_ok(#[trigger] langs[l]) && spec_bundle_files_ok(
            langs[l],
            m,
            en_names,
        )
    &&& forall|i: int, j: int|
        0 <= i < j < langs.len() ==> (#[trigger] langs[i]).language != (
        #[trigger] langs[j]).language
}

/// A fold of other languages over the tree keeps it well-formed and leaves
/// this language's folder resolution, and the resolved folder's files,
/// untouched.
proof fn lemma_fold_preserves_resolution(
    dirs: Seq<SubdirV>,
    langs: Seq<BundleLangV>,
    lang: BundleLangV,
    m: ModInfoView,
    en_names: Seq<Seq<char>>,
    codes: Seq<Seq<char>>,
)
    requires
        spec_tree_ok(dirs, en_names, codes),
        spec_langs_ok(langs, m, en_names),
        spec_lang_ok(lang),
        forall|l: int| 0 <= l < langs.len() ==> (#[trigger] langs[l]).language != lang.language,
    ensures
        spec_tree_ok(spec_apply_languages(dirs, langs, m), en_names, codes),
        ({
            let y = spec_apply_languages(dirs, langs, m);
            &&& spec_target_name(y, lang) == spec_target_name(dirs, lang)
            &&& spec_subdir_index(y, spec_target_name(dirs, lang)) == spec_subdir_index(
                dirs,
                spec_target_name(dirs, lang),
            )
            &&& (spec_subdir_index(dirs, spec_target_name(dirs, lang)) >= 0 ==> y[
                spec_subdir_index(dirs, spec_target_name(dirs, lang))].files == dirs[
                spec_subdir_index(dirs, spec_target_name(dirs, lang))].files)
        }),
    decreases langs.len(),
{
    if langs.len() == 0 {
    } else {
        let x1 = spec_apply_language(dirs, langs[0], m);
        lemma_apply_language_step(dirs, langs[0], m, en_names, codes);
        lemma_step_preserves_other(dirs, langs[0], lang, m, en_names, codes);
        assert(forall|l: int|
            0 <= l < langs.drop_first().len() ==> #[trigger] langs.drop_first()[l] == langs[l
                + 1]);
        lemma_fold_preserves_resolution(x1, langs.drop_first(), lang, m, en_names, codes);
    }
}

/// Merging the bundle languages a second time changes nothing: each
/// language's folder already holds exactly its files after the first
/// merge.
proof fn lemma_apply_languages_idempotent(
    dirs: Seq<SubdirV>,
    langs: Seq<BundleLangV>,
    m: ModInfoView,
    en_names: Seq<Seq<char>>,
    codes: Seq<Seq<char>>,
)
    requires
        spec_tree_ok(dirs, en_names, codes),
        spec_langs_ok(langs, m, en_names),
    ensures
        spec_tree_ok(spec_apply_languages(dirs, langs, m), en_names, codes),
        spec_apply_languages(spec_apply_languages(dirs, langs, m), langs, m)
            == spec_apply_languages(dirs, langs, m),
    decreases langs.len(),
{
    if langs.len() == 0 {
    } else {
        let l0 = langs[0];
        let rest = langs.drop_first();
        assert(forall|l: int| 0 <= l < rest.len() ==> #[trigger] rest[l] == langs[l + 1]);
        let x1 = spec_apply_language(dirs, l0, m);
        lemma_apply_language_step(dirs, l0, m, en_names, codes);
        lemma_apply_languages_idempotent(x1, rest, m, en_names, codes);
        let y = spec_apply_languages(x1, rest, m);
        assert(spec_apply_languages(dirs, langs, m) == y);
        // The second pass of the head language finds its folder already
        // holding exactly its files.
        assert(spec_apply_language(y, l0, m) == y) by {
            if !spec_merge_applies(l0, m) {
                lemma_apply_language_step(y, l0, m, en_names, codes);
            } else {
                let bfiles = spec_bundle_mod_files(l0, m);
                let tn = spec_target_name(x1, l0);
                let ti = spec_subdir_index(x1, tn);
                // In the tree right after the head merge, the target folder
                // exists and absorbs the head language's files.
                assert(ti >= 0 && x1[ti].files == spec_overlay(
                    spec_overlay_base(dirs, l0, m),
                    bfiles,
                ) && spec_distinct_file_names(x1[ti].files) && spec_absorbed(
                    x1[ti].files,
                    bfiles,
                )) by {
                    let tn0 = spec_target_name(dirs, l0);
                    let ti0 = spec_subdir_index(dirs, tn0);
                    lemma_subdir_index(dirs, tn0);
                    lemma_lang_match_index(dirs, l0.language);
                    if ti0 >= 0 {
                        lemma_overlay_absorbs(dirs[ti0].files, bfiles);
                        assert(x1 == dirs.update(
                            ti0,
                            SubdirV {
                                name: dirs[ti0].name,
                                files: spec_overlay(dirs[ti0].files, bfiles),
                            },
                        ));
                        assert(forall|j: int|
                            0 <= j < x1.len() ==> (#[trigger] x1[j]).name == dirs[j].name);
                        lemma_lang_match_index_names(x1, dirs, l0.language);
                        assert(spec_target_name(x1, l0) == tn0) by {
                            let li = spec_lang_match_index(dirs, l0.language);
                            if li >= 0 {
                                assert(x1[li].name == dirs[li].name);
                            }
                        }
                        lemma_subdir_index_names(x1, dirs, tn0);
                        assert(spec_overlay_base(dirs, l0, m) == dirs[ti0].files);
                    } else {
                        assert(tn0 == l0.language);
                        let d = SubdirV {
                            name: l0.language,
                            files: spec_overlay(Seq::empty(), bfiles),
                        };
                        assert(x1 == dirs.push(d));
                        assert(spec_lang_match_index(dirs, l0.language) < 0) by {
                            let li = spec_lang_match_index(dirs, l0.language);
                            if li >= 0 {
                                lemma_subdir_present(dirs, dirs[li].name, li);
                            }
                        }
                        lemma_scans_after_matching_push(dirs, d, l0.language);
                        assert(spec_lang_match_index(x1, l0.language) == dirs.len());
                        assert(spec_target_name(x1, l0) == l0.language);
                        assert(spec_subdir_index(x1, l0.language) == dirs.len());
                        assert(x1[dirs.len() as int] == d);
                        lemma_overlay_absorbs(Seq::empty(), bfiles);
                        assert(spec_overlay_base(dirs, l0, m) =~= Seq::<FileV>::empty());
                    }
                }
                // The remaining languages leave that folder untouched.
                lemma_fold_preserves_resolution(x1, rest, l0, m, en_names, codes);
                assert(spec_target_name(y, l0) == tn);
                assert(spec_subdir_index(y, tn) == ti);
                assert(y[ti].files == x1[ti].files);
                // So the second merge of the head language overwrites its
                // folder with the files it already holds.
                lemma_apply_language_step(y, l0, m, en_names, codes);
                lemma_overlay_noop(y[ti].files, bfiles);
                lemma_subdir_index(y, tn);
                assert(spec_apply_language(y, l0, m) == y.update(
                    ti,
                    SubdirV { name: y[ti].name, files: spec_overlay(y[ti].files, bfiles) },
                ));
                assert((SubdirV { name: y[ti].name, files: spec_overlay(y[ti].files, bfiles) })
                    == y[ti]);
                assert(y.update(ti, y[ti]) =~= y);
            }
        }
        // Folding the whole list a second time is the head (a no-op) and
        // then the rest (a no-op by induction).
        assert(spec_apply_languages(y, langs, m) == spec_apply_languages(
            spec_apply_language(y, l0, m),
            rest,
            m,
        ));
        assert(spec_apply_languages(y, rest, m) == y);
    }
}

/// The folder files this language's first merge starts from: the matched
/// folder's files, or none when a folder is created.
pub open spec fn spec_overlay_base(dirs: Seq<SubdirV>, lang: BundleLangV, m: ModInfoView) -> Seq<
    FileV> {
    let tn = spec_target_name(dirs, lang);
    let ti = spec_subdir_index(dirs, tn);
    if ti >= 0 {
        dirs[ti].files
    } else {
        Seq::empty()
    }
}

/// The source-language folder name is its own canonical form.
proof fn lemma_normalize_en()
    ensures
        spec_normalize_language_code("en"@) == "en"@,
{
    reveal_strlit("en");
    let s = "en"@;
    assert(s.len() == 2 && s[0] == 'e' && s[1] == 'n');
    let s1 = s.drop_first();
    assert(s1.len() == 1 && s1[0] == 'n');
    assert(s1.drop_first().len() == 0);
    assert(crate::text::spec_find_char(s1.drop_first(), '-') == -1);
    assert(crate::text::spec_find_char(s1, '-') == -1);
    assert(crate::text::spec_find_char(s, '-') == -1);
    assert(s.map_values(|c: char| crate::text::spec_to_ascii_lower(c)) =~= s);
}

/// Merging bundle languages never touches the `en` folder: the English
/// source names before and after are the same.
proof fn lemma_apply_langs_preserve_en(
    dirs: Seq<SubdirV>,
    langs: Seq<BundleLangV>,
    m: ModInfoView,
    en_names: Seq<Seq<char>>,
    codes: Seq<Seq<char>>,
)
    requires
        spec_tree_ok(dirs, en_names, codes),
        spec_langs_ok(langs, m, en_names),
    ensures
        spec_en_names(spec_apply_languages(dirs, langs, m)) == spec_en_names(dirs),
    decreases langs.len(),
{
    if langs.len() == 0 {
    } else {
        let l0 = langs[0];
        let x1 = spec_apply_language(dirs, l0, m);
        lemma_apply_language_step(dirs, l0, m, en_names, codes);
        lemma_normalize_en();
        assert(spec_en_names(x1) == spec_en_names(dirs)) by {
            if !spec_merge_applies(l0, m) {
            } else {
                let tn0 = spec_target_name(dirs, l0);
                let ti0 = spec_subdir_index(dirs, tn0);
                lemma_subdir_index(dirs, tn0);
                assert(tn0 != "en"@) by {
                    if tn0 == "en"@ {
                        assert(spec_normalize_language_code(tn0) == l0.language);
                        assert(l0.language == "en"@);
                        assert(false);
                    }
                }
                if ti0 >= 0 {
                    assert(x1 == dirs.update(
                        ti0,
                        SubdirV {
                            name: dirs[ti0].name,
                            files: spec_overlay(dirs[ti0].files, spec_bundle_mod_files(l0, m)),
                        },
                    ));
                    assert(forall|j: int|
                        0 <= j < x1.len() ==> (#[trigger] x1[j]).name == dirs[j].name);
                    lemma_subdir_index_names(x1, dirs, "en"@);
                    let e = spec_subdir_index(dirs, "en"@);
                    if e >= 0 {
                        lemma_subdir_index(dirs, "en"@);
                        assert(dirs[ti0].name == tn0);
                        assert(e != ti0);
                        assert(x1[e] == dirs[e]);
                    }
                } else {
                    let d = SubdirV {
                        name: l0.language,
                        files: spec_overlay(Seq::empty(), spec_bundle_mod_files(l0, m)),
                    };
                    assert(x1 == dirs.push(d));
                    assert(l0.language != "en"@);
                    assert(spec_normalize_language_code(d.name) != "en"@);
                    lemma_scans_after_push(dirs, d, "en"@, "en"@);
                    let e = spec_subdir_index(dirs, "en"@);
                    if e >= 0 {
                        lemma_subdir_index(dirs, "en"@);
                        assert(x1[e] == dirs[e]);
                    }
                }
            }
        }
        assert(forall|l: int|
            0 <= l < langs.drop_first().len() ==> #[trigger] langs.drop_first()[l] == langs[l
                + 1]);
        lemma_apply_langs_preserve_en(x1, langs.drop_first(), m, en_names, codes);
    }
}

/// Reconciliation is idempotent: merging the same downloaded bundle into
/// the tree a second time changes nothing.  The tree must be well-formed
/// (distinct folder and file names), and the bundle as a translation build
/// delivers it: canonical language codes other than the source language,
/// each carried once, with distinct file names that all have English
/// counterparts.  The counterpart condition matters only because this model
/// keeps listing order: a merged file without an English source is deleted
/// by the second run's cleanup and re-appended at the end of its folder, so
/// the two trees would hold the same files in a different order.
pub proof fn lemma_reconcile_idempotent(
    dirs: Seq<SubdirV>,
    bundle: BundleV,
    m: ModInfoView,
    codes: Seq<Seq<char>>,
)
    requires
        spec_distinct_subdir_names(dirs),
        forall|d: int|
            0 <= d < dirs.len() ==> spec_distinct_file_names((#[trigger] dirs[d]).files),
        spec_langs_ok(bundle.languages, m, spec_en_names(dirs)),
    ensures
        spec_reconcile(spec_reconcile(dirs, bundle, m, codes), bundle, m, codes)
            == spec_reconcile(dirs, bundle, m, codes),
{
    let en0 = spec_en_names(dirs);
    let s = spec_clean(dirs, en0, codes);
    lemma_clean_shape(dirs, en0, codes);
    lemma_normalize_en();
    assert(spec_tree_ok(s, en0, codes)) by {
        assert(forall|j: int| 0 <= j < s.len() ==> (#[trigger] s[j]).name == dirs[j].name);
        assert forall|i: int, j: int| 0 <= i < j < s.len() implies (#[trigger] s[i]).name != (
        #[trigger] s[j]).name by {
            assert(dirs[i].name != dirs[j].name);
        }
        assert forall|d: int| 0 <= d < s.len() implies spec_distinct_file_names(
            (#[trigger] s[d]).files,
        ) by {
            lemma_clean_files_facts(dirs[d].files, en0);
            if spec_is_localization_dir(dirs[d].name, codes) {
                assert(s[d].files == spec_clean_files(dirs[d].files, en0));
            } else {
                assert(s[d] == dirs[d]);
            }
        }
        assert forall|d: int|
            0 <= d < s.len() && spec_is_localization_dir((#[trigger] s[d]).name, codes) implies
            spec_files_clean(s[d].files, en0) by {
            lemma_clean_files_facts(dirs[d].files, en0);
            assert(s[d].files == spec_clean_files(dirs[d].files, en0));
        }
    }
    assert(spec_en_names(s) == en0) by {
        lemma_subdir_index_names(s, dirs, "en"@);
        let e = spec_subdir_index(dirs, "en"@);
        if e >= 0 {
            lemma_subdir_index(dirs, "en"@);
            assert(!spec_is_localization_dir(dirs[e].name, codes));
            assert(s[e] == dirs[e]);
        }
    }
    let langs = bundle.languages;
    let t1 = spec_apply_languages(s, langs, m);
    lemma_apply_languages_idempotent(s, langs, m, en0, codes);
    lemma_apply_langs_preserve_en(s, langs, m, en0, codes);
    assert(spec_reconcile(dirs, bundle, m, codes) == t1);
    assert(spec_en_names(t1) == en0);
    assert(spec_clean(t1, en0, codes) =~= t1) by {
        lemma_clean_shape(t1, en0, codes);
        assert forall|j: int| 0 <= j < t1.len() implies #[trigger] spec_clean(
            t1,
            en0,
            codes,
        )[j] == t1[j] by {
            if spec_is_localization_dir(t1[j].name, codes) {
                lemma_clean_files_facts(t1[j].files, en0);
                assert(spec_files_clean(t1[j].files, en0));
                assert(spec_clean(t1, en0, codes)[j].files == spec_clean_files(
                    t1[j].files,
                    en0,
                ));
                assert(spec_clean(t1, en0, codes)[j].name == t1[j].name);
                assert(spec_clean(t1, en0, codes)[j] =~= t1[j]);
            }
        }
    }
    assert(spec_reconcile(t1, bundle, m, codes) == spec_apply_languages(
        spec_clean(t1, spec_en_names(t1), codes),
        langs,
        m,
    ));
    assert(spec_apply_languages(t1, langs, m) == t1);
}

} // verus!
