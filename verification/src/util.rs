//! Small shared helpers: file-name handling and the emptiness test for
//! downloaded locale files.

use vstd::prelude::*;

use crate::chars::{char_is_whitespace, spec_is_whitespace};
use crate::mod_directory::{Subdir, spec_cfg_names};
use crate::reconcile::{BundleDirectory, BundleLanguage, TranslationBundle, BundleDirV,
    BundleLangV, clone_file};
use crate::text::{chars_of, find_char_from, lemma_find_char, spec_find_char, str_eq, string_of,
    subvec};

verus! {

/// The index of the last slash in a path, or -1.
pub open spec fn spec_last_slash(p: Seq<char>) -> int
    decreases p.len(),
{
    if p.len() == 0 {
        -1
    } else if p.last() == '/' {
        p.len() - 1
    } else {
        spec_last_slash(p.drop_last())
    }
}

/// The file name of a path: everything after the last slash.
pub open spec fn spec_file_name(p: Seq<char>) -> Seq<char> {
    p.skip(spec_last_slash(p) + 1)
}

/// The file name of a path: everything after the last slash, the whole
/// path when it has none.
pub fn file_name(path: &str) -> (r: String)
    ensures
        r@ == spec_file_name(path@),
{
    let chars = chars_of(path);
    let mut i: usize = chars.len();
    proof {
        assert(chars@.take(chars@.len() as int) =~= chars@);
    }
    while i > 0
        invariant
            i <= chars@.len(),
            chars@ == path@,
            spec_last_slash(chars@) == spec_last_slash(chars@.take(i as int)),
            forall|j: int| i <= j < chars@.len() ==> chars@[j] != '/',
        decreases i,
    {
        proof {
            assert(chars@.take(i as int).last() == chars@[i - 1]);
            assert(chars@.take(i as int).drop_last() =~= chars@.take(i - 1));
        }
        if chars[i - 1] == '/' {
            let out = subvec(&chars, i, chars.len());
            proof {
                assert(spec_last_slash(chars@) == i - 1);
                assert(out@ =~= spec_file_name(path@));
            }
            return string_of(&out);
        }
        i = i - 1;
    }
    proof {
        assert(chars@.take(0) =~= Seq::<char>::empty());
        assert(spec_last_slash(chars@) == -1);
        assert(chars@.skip(0) =~= chars@);
    }
    string_of(&chars)
}

/// The names of the `.cfg` files directly inside a directory.
pub fn get_directory_cfg_files_paths(dir: &Subdir) -> (r: Vec<String>)
    ensures
        r@.map_values(|s: String| s@) == spec_cfg_names(
            dir.files@.map_values(|f: crate::mod_directory::FileEntry| f@),
        ),
{
    crate::mod_directory::cfg_file_names(&dir.files)
}

/// The index of the first non-whitespace character of a line, or -1.
pub open spec fn spec_first_non_ws(line: Seq<char>) -> int
    decreases line.len(),
{
    if line.len() == 0 {
        -1
    } else if !spec_is_whitespace(line[0]) {
        0
    } else {
        let r = spec_first_non_ws(line.drop_first());
        if r < 0 {
            -1
        } else {
            r + 1
        }
    }
}

/// A line that carries no translation: blank, a section header, or a
/// comment.
pub open spec fn spec_blank_line(line: Seq<char>) -> bool {
    let k = spec_first_non_ws(line);
    k < 0 || line[k] == '[' || line[k] == ';'
}

/// A locale file that carries no translation: every line is blank, a
/// section header or a comment.
pub open spec fn spec_empty_ini(s: Seq<char>) -> bool
    decreases s.len(),
    via spec_empty_ini_decreases
{
    let n = spec_find_char(s, '\n');
    if n >= 0 {
        spec_blank_line(s.take(n)) && spec_empty_ini(s.skip(n + 1))
    } else {
        spec_blank_line(s)
    }
}

#[via_fn]
proof fn spec_empty_ini_decreases(s: Seq<char>) {
    lemma_find_char(s, '\n');
}

/// Whether one line carries no translation.
fn is_blank_line(chars: &Vec<char>, from: usize, to: usize) -> (r: bool)
    requires
        from <= to <= chars@.len(),
    ensures
        r == spec_blank_line(chars@.subrange(from as int, to as int)),
{
    let ghost line = chars@.subrange(from as int, to as int);
    let mut i: usize = from;
    proof {
        assert(line.skip(0) =~= line);
    }
    while i < to
        invariant
            from <= i <= to <= chars@.len(),
            line == chars@.subrange(from as int, to as int),
            spec_first_non_ws(line.skip(i - from)) >= 0 ==> spec_first_non_ws(line) == i - from
                + spec_first_non_ws(line.skip(i - from)),
            spec_first_non_ws(line.skip(i - from)) < 0 ==> spec_first_non_ws(line) < 0,
        decreases to - i,
    {
        proof {
            assert(line.skip(i - from)[0] == line[i - from]);
            assert(line[i - from] == chars@[i as int]);
            assert(line.skip(i - from).drop_first() =~= line.skip(i - from + 1));
        }
        let c = chars[i];
        if !char_is_whitespace(c) {
            proof {
                assert(spec_first_non_ws(line) == i - from);
            }
            return c == '[' || c == ';';
        }
        i = i + 1;
    }
    proof {
        assert(line.skip(i - from).len() == 0);
        assert(spec_first_non_ws(line) < 0);
    }
    true
}

/// Whether a locale file carries no translation: every line is blank, a
/// section header or a comment.
pub fn is_empty_ini_file(content: &str) -> (r: bool)
    ensures
        r == spec_empty_ini(content@),
{
    let chars = chars_of(content);
    let mut pos: usize = 0;
    proof {
        assert(chars@.skip(0) =~= chars@);
    }
    loop
        invariant_except_break
            spec_empty_ini(chars@) == spec_empty_ini(chars@.skip(pos as int)),
        invariant
            pos <= chars@.len(),
            chars@ == content@,
        ensures
            spec_empty_ini(chars@) == spec_empty_ini(chars@.skip(pos as int)),
            pos <= chars@.len(),
        decreases chars@.len() - pos,
    {
        let total = chars.len();
        match find_char_from(&chars, '\n', pos) {
            Some(j) => {
                proof {
                    assert(j < total);
                    assert(chars@.skip(pos as int).take(j - pos as int) =~= chars@.subrange(
                        pos as int,
                        j as int,
                    ));
                    assert(chars@.skip(pos as int).skip(j - pos as int + 1) =~= chars@.skip(
                        j + 1,
                    ));
                }
                if !is_blank_line(&chars, pos, j) {
                    return false;
                }
                pos = j + 1;
            },
            None => {
                proof {
                    assert(chars@.skip(pos as int).take(chars@.len() - pos as int) =~= chars@
                        .subrange(pos as int, chars@.len() as int));
                }
                let blank = is_blank_line(&chars, pos, chars.len());
                if blank {
                    proof {
                        assert(spec_empty_ini(chars@.skip(pos as int)));
                    }
                    return true;
                }
                return false;
            },
        }
    }
}

/// The files kept after pruning: those whose content carries a
/// translation.
pub open spec fn spec_prune_files(files: Seq<crate::mod_directory::FileV>) -> Seq<
    crate::mod_directory::FileV>
    decreases files.len(),
{
    if files.len() == 0 {
        Seq::empty()
    } else {
        let rest = spec_prune_files(files.drop_first());
        if !spec_empty_ini(files[0].content) {
            seq![files[0]] + rest
        } else {
            rest
        }
    }
}

/// Every directory with its empty locale files pruned.
pub open spec fn spec_prune_dirs(dirs: Seq<BundleDirV>) -> Seq<BundleDirV>
    decreases dirs.len(),
{
    if dirs.len() == 0 {
        Seq::empty()
    } else {
        seq![BundleDirV { name: dirs[0].name, files: spec_prune_files(dirs[0].files) }]
            + spec_prune_dirs(dirs.drop_first())
    }
}

/// Every language with its empty locale files pruned.
pub open spec fn spec_prune_langs(langs: Seq<BundleLangV>) -> Seq<BundleLangV>
    decreases langs.len(),
{
    if langs.len() == 0 {
        Seq::empty()
    } else {
        seq![
            BundleLangV {
                language: langs[0].language,
                directories: spec_prune_dirs(langs[0].directories),
            },
        ] + spec_prune_langs(langs.drop_first())
    }
}

/// Deletes every file of the bundle that is empty after extraction: a file
/// counts as empty when every line is blank, a section header or a
/// comment.
pub fn remove_empty_ini_files(bundle: &mut TranslationBundle)
    ensures
        final(bundle)@.languages == spec_prune_langs(old(bundle)@.languages),
{
    let ghost lv = bundle@.languages;
    let mut out_langs: Vec<BundleLanguage> = Vec::new();
    let mut l: usize = 0;
    proof {
        assert(lv.skip(0) =~= lv);
        assert(out_langs@.map_values(|x: BundleLanguage| x@) + spec_prune_langs(lv)
            =~= spec_prune_langs(lv));
    }
    while l < bundle.languages.len()
        invariant
            l <= bundle.languages@.len(),
            lv == bundle@.languages,
            out_langs@.map_values(|x: BundleLanguage| x@) + spec_prune_langs(lv.skip(l as int))
                == spec_prune_langs(lv),
        decreases bundle.languages@.len() - l,
    {
        proof {
            assert(lv.skip(l as int)[0] == lv[l as int]);
            assert(lv.skip(l as int).drop_first() =~= lv.skip(l as int + 1));
            assert(lv[l as int] == bundle.languages@[l as int]@);
        }
        let lang = &bundle.languages[l];
        let ghost dv = lv[l as int].directories;
        let mut out_dirs: Vec<BundleDirectory> = Vec::new();
        let mut d: usize = 0;
        proof {
            assert(dv.skip(0) =~= dv);
            assert(out_dirs@.map_values(|x: BundleDirectory| x@) + spec_prune_dirs(dv)
                =~= spec_prune_dirs(dv));
        }
        while d < lang.directories.len()
            invariant
                d <= lang.directories@.len(),
                dv == lang.directories@.map_values(|x: BundleDirectory| x@),
                out_dirs@.map_values(|x: BundleDirectory| x@) + spec_prune_dirs(dv.skip(d as int))
                    == spec_prune_dirs(dv),
            decreases lang.directories@.len() - d,
        {
            proof {
                assert(dv.skip(d as int)[0] == dv[d as int]);
                assert(dv.skip(d as int).drop_first() =~= dv.skip(d as int + 1));
                assert(dv[d as int] == lang.directories@[d as int]@);
            }
            let dir = &lang.directories[d];
            let ghost fv = dv[d as int].files;
            let mut kept: Vec<crate::mod_directory::FileEntry> = Vec::new();
            let mut k: usize = 0;
            proof {
                assert(fv.skip(0) =~= fv);
                assert(kept@.map_values(|f: crate::mod_directory::FileEntry| f@)
                    + spec_prune_files(fv) =~= spec_prune_files(fv));
            }
            while k < dir.files.len()
                invariant
                    k <= dir.files@.len(),
                    fv == dir.files@.map_values(|f: crate::mod_directory::FileEntry| f@),
                    kept@.map_values(|f: crate::mod_directory::FileEntry| f@) + spec_prune_files(
                        fv.skip(k as int),
                    ) == spec_prune_files(fv),
                decreases dir.files@.len() - k,
            {
                proof {
                    assert(fv.skip(k as int)[0] == fv[k as int]);
                    assert(fv.skip(k as int).drop_first() =~= fv.skip(k as int + 1));
                    assert(fv[k as int] == dir.files@[k as int]@);
                }
                let f = &dir.files[k];
                if !is_empty_ini_file(f.content.as_str()) {
                    let ghost pre = kept@.map_values(|f: crate::mod_directory::FileEntry| f@);
                    kept.push(clone_file(f));
                    proof {
                        assert(kept@.map_values(|f: crate::mod_directory::FileEntry| f@)
                            =~= pre.push(fv[k as int]));
                        assert(pre.push(fv[k as int]) + spec_prune_files(fv.skip(k as int + 1))
                            =~= pre + (seq![fv[k as int]] + spec_prune_files(
                            fv.skip(k as int + 1),
                        )));
                    }
                }
                k = k + 1;
            }
            proof {
                assert(fv.skip(k as int) =~= Seq::<crate::mod_directory::FileV>::empty());
                assert(kept@.map_values(|f: crate::mod_directory::FileEntry| f@) + Seq::<
                    crate::mod_directory::FileV,
                >::empty() =~= kept@.map_values(|f: crate::mod_directory::FileEntry| f@));
            }
            let newdir = BundleDirectory { name: dir.name.clone(), files: kept };
            let ghost ndv = newdir@;
            let ghost pre = out_dirs@.map_values(|x: BundleDirectory| x@);
            out_dirs.push(newdir);
            proof {
                assert(ndv == (BundleDirV {
                    name: dv[d as int].name,
                    files: spec_prune_files(dv[d as int].files),
                }));
                assert(out_dirs@.map_values(|x: BundleDirectory| x@) =~= pre.push(ndv));
                assert(pre.push(ndv) + spec_prune_dirs(dv.skip(d as int + 1)) =~= pre + (seq![ndv]
                    + spec_prune_dirs(dv.skip(d as int + 1))));
            }
            d = d + 1;
        }
        proof {
            assert(dv.skip(d as int) =~= Seq::<BundleDirV>::empty());
            assert(out_dirs@.map_values(|x: BundleDirectory| x@) + Seq::<BundleDirV>::empty()
                =~= out_dirs@.map_values(|x: BundleDirectory| x@));
        }
        let newlang = BundleLanguage { language: lang.language.clone(), directories: out_dirs };
        let ghost nlv = newlang@;
        let ghost prel = out_langs@.map_values(|x: BundleLanguage| x@);
        out_langs.push(newlang);
        proof {
            assert(nlv == (BundleLangV {
                language: lv[l as int].language,
                directories: spec_prune_dirs(lv[l as int].directories),
            }));
            assert(out_langs@.map_values(|x: BundleLanguage| x@) =~= prel.push(nlv));
            assert(prel.push(nlv) + spec_prune_langs(lv.skip(l as int + 1)) =~= prel + (seq![nlv]
                + spec_prune_langs(lv.skip(l as int + 1))));
        }
        l = l + 1;
    }
    proof {
        assert(lv.skip(l as int) =~= Seq::<BundleLangV>::empty());
        assert(out_langs@.map_values(|x: BundleLanguage| x@) + Seq::<BundleLangV>::empty()
            =~= out_langs@.map_values(|x: BundleLanguage| x@));
    }
    bundle.languages = out_langs;
}

/// Whether a trigger request carries the configured operator secret: a
/// missing secret never passes.
pub fn check_secret(secret: &Option<String>, webserver_secret: &str) -> (r: bool)
    ensures
        r == match secret {
            Option::Some(s) => s@ == webserver_secret@,
            Option::None => false,
        },
{
    match secret {
        Some(s) => str_eq(s.as_str(), webserver_secret),
        None => false,
    }
}

} // verus!
