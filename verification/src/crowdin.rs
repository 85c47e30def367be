//! Naming and language-code rules of the translation platform: the
//! deterministic directory name of a mod, normalization of language codes,
//! and the extension rename between repository and platform file names.

use vstd::prelude::*;

use crate::case::{spec_title_case, to_title_case};
use crate::escape::{escape_strings_in_ini_file, spec_escape_text};
use crate::github_repo_info::{GithubModInfo, ModInfoView};
use crate::text::{chars_of, find_char, push_all, spec_find_char, spec_to_ascii_lower,
    spec_to_ascii_upper, string_of, subvec, to_ascii_lower, to_ascii_upper};

verus! {

/// The canonical form of a language code: the part before the first hyphen
/// lowercased, the part after it uppercased; a code without a hyphen is
/// fully lowercased.
pub open spec fn spec_normalize_language_code(code: Seq<char>) -> Seq<char> {
    let d = spec_find_char(code, '-');
    if d < 0 {
        code.map_values(|c: char| spec_to_ascii_lower(c))
    } else {
        code.take(d).map_values(|c: char| spec_to_ascii_lower(c)) + seq!['-'] + code.skip(d + 1)
            .map_values(|c: char| spec_to_ascii_upper(c))
    }
}

/// Normalizes a language code: the platform expects codes such as `pt-BR`,
/// while repository folders may spell them `pt-br`; this repairs the casing
/// without changing the code itself.
pub fn normalize_language_code(code: &str) -> (r: String)
    ensures
        r@ == spec_normalize_language_code(code@),
{
    let chars = chars_of(code);
    match find_char(&chars, '-') {
        None => {
            let mut out: Vec<char> = Vec::new();
            let mut i: usize = 0;
            while i < chars.len()
                invariant
                    i <= chars@.len(),
                    chars@ == code@,
                    out@ == chars@.take(i as int).map_values(|c: char| spec_to_ascii_lower(c)),
                decreases chars@.len() - i,
            {
                out.push(to_ascii_lower(chars[i]));
                i = i + 1;
                proof {
                    assert(out@ =~= chars@.take(i as int).map_values(
                        |c: char| spec_to_ascii_lower(c),
                    ));
                }
            }
            proof {
                assert(chars@.take(i as int) =~= chars@);
            }
            string_of(&out)
        },
        Some(d) => {
            let mut out: Vec<char> = Vec::new();
            let mut i: usize = 0;
            while i < d
                invariant
                    i <= d < chars@.len(),
                    chars@ == code@,
                    d == spec_find_char(code@, '-'),
                    out@ == chars@.take(d as int).take(i as int).map_values(
                        |c: char| spec_to_ascii_lower(c),
                    ),
                decreases d - i,
            {
                out.push(to_ascii_lower(chars[i]));
                i = i + 1;
                proof {
                    assert(chars@.take(d as int).take(i as int) =~= chars@.take(i as int));
                    assert(out@ =~= chars@.take(d as int).take(i as int).map_values(
                        |c: char| spec_to_ascii_lower(c),
                    ));
                }
            }
            out.push('-');
            proof {
                assert(d < chars@.len());
            }
            let n_all = chars.len();
            let mut j: usize = d + 1;
            while j < chars.len()
                invariant
                    d < j <= chars@.len(),
                    chars@ == code@,
                    d == spec_find_char(code@, '-'),
                    out@ == chars@.take(d as int).map_values(|c: char| spec_to_ascii_lower(c))
                        + seq!['-'] + chars@.skip(d + 1).take(j - d - 1).map_values(
                        |c: char| spec_to_ascii_upper(c),
                    ),
                decreases chars@.len() - j,
            {
                out.push(to_ascii_upper(chars[j]));
                j = j + 1;
                proof {
                    assert(chars@.skip(d + 1).take(j - d - 1).drop_last() =~= chars@.skip(
                        d + 1,
                    ).take(j - d - 2));
                    assert(out@ =~= chars@.take(d as int).map_values(
                        |c: char| spec_to_ascii_lower(c),
                    ) + seq!['-'] + chars@.skip(d + 1).take(j - d - 1).map_values(
                        |c: char| spec_to_ascii_upper(c),
                    ));
                }
            }
            proof {
                assert(chars@.skip(d + 1).take(j - d - 1) =~= chars@.skip(d + 1));
            }
            string_of(&out)
        },
    }
}

/// Whether a code appears in the platform's supported-language list.
pub fn is_correct_language_code(code: &str, project_language_codes: &Vec<String>) -> (r: bool)
    ensures
        r == project_language_codes@.map_values(|s: String| s@).contains(code@),
{
    crate::github_repo_info::contains_string(project_language_codes, code)
}

/// The part of a mod's platform directory name that does not depend on the
/// owner: the title-cased repository name, plus the title-cased platform key
/// when one is configured.
pub open spec fn spec_crowdin_directory_base(m: ModInfoView) -> Seq<char> {
    match m.crowdin_name {
        Option::None => spec_title_case(m.repo),
        Option::Some(n) => spec_title_case(m.repo) + " - "@ + spec_title_case(n),
    }
}

/// The full platform directory name of a mod: the base followed by the
/// owner in parentheses.  This name is the sole join key between the
/// repository and its translation directory.
pub open spec fn spec_crowdin_directory_name(m: ModInfoView) -> Seq<char> {
    spec_crowdin_directory_base(m) + " ("@ + m.owner + ")"@
}

/// Maps a mod to its platform directory name, deterministically from the
/// owner, repository name and configured key alone.
pub fn get_crowdin_directory_name(mod_info: &GithubModInfo) -> (r: String)
    ensures
        r@ == spec_crowdin_directory_name(mod_info@),
{
    let mut name = to_title_case(mod_info.repo.as_str());
    match &mod_info.crowdin_name {
        Some(n) => {
            name.append(" - ");
            let titled = to_title_case(n.as_str());
            name.append(titled.as_str());
        },
        None => {},
    }
    name.append(" (");
    name.append(mod_info.owner.as_str());
    name.append(")");
    name
}

/// The platform directory name is deterministic, and the part before the
/// parenthesized owner does not depend on the owner: two mods that differ
/// only in their owner map to names with the same base and their own owner
/// suffix.
pub proof fn lemma_crowdin_directory_name_owner_suffix(a: ModInfoView, b: ModInfoView)
    requires
        a.repo == b.repo,
        a.crowdin_name == b.crowdin_name,
    ensures
        spec_crowdin_directory_name(a) == spec_crowdin_directory_base(a) + " ("@ + a.owner
            + ")"@,
        spec_crowdin_directory_name(b) == spec_crowdin_directory_base(a) + " ("@ + b.owner
            + ")"@,
{
}

/// A repository locale file name mapped to its platform spelling: a final
/// `.cfg` extension becomes `.ini`; any other name passes through
/// unchanged.
pub open spec fn spec_replace_cfg_to_ini(name: Seq<char>) -> Seq<char> {
    if name.len() >= 4 && name.subrange(name.len() - 4, name.len() as int) == ".cfg"@ {
        name.take(name.len() - 4) + ".ini"@
    } else {
        name
    }
}

/// A platform file name mapped back to its repository spelling: a final
/// `.ini` extension becomes `.cfg`; any other name passes through
/// unchanged.
pub open spec fn spec_replace_ini_to_cfg(name: Seq<char>) -> Seq<char> {
    if name.len() >= 4 && name.subrange(name.len() - 4, name.len() as int) == ".ini"@ {
        name.take(name.len() - 4) + ".cfg"@
    } else {
        name
    }
}

/// Renames a `.cfg` file name to its `.ini` platform name; only the literal
/// extension is mapped.
pub fn replace_cfg_to_ini(name: &str) -> (r: String)
    ensures
        r@ == spec_replace_cfg_to_ini(name@),
{
    let chars = chars_of(name);
    let n = chars.len();
    proof {
        reveal_strlit(".cfg");
        reveal_strlit(".ini");
    }
    if n >= 4 && chars[n - 4] == '.' && chars[n - 3] == 'c' && chars[n - 2] == 'f' && chars[n - 1]
        == 'g' {
        proof {
            assert(chars@.subrange(n - 4, n as int) =~= ".cfg"@);
        }
        let mut out = subvec(&chars, 0, n - 4);
        let suffix = chars_of(".ini");
        push_all(&mut out, &suffix);
        proof {
            assert(out@ =~= spec_replace_cfg_to_ini(name@));
        }
        string_of(&out)
    } else {
        proof {
            if name@.len() >= 4 && name@.subrange(name@.len() - 4, name@.len() as int) == ".cfg"@ {
                let sub = name@.subrange(name@.len() - 4, name@.len() as int);
                assert(sub[0] == name@[name@.len() - 4] && sub[1] == name@[name@.len() - 3]
                    && sub[2] == name@[name@.len() - 2] && sub[3] == name@[name@.len() - 1]);
                assert(sub[0] == '.' && sub[1] == 'c' && sub[2] == 'f' && sub[3] == 'g');
            }
        }
        string_of(&chars)
    }
}

/// Renames an `.ini` file name to its `.cfg` repository name; only the
/// literal extension is mapped.
pub fn replace_ini_to_cfg(name: &str) -> (r: String)
    ensures
        r@ == spec_replace_ini_to_cfg(name@),
{
    let chars = chars_of(name);
    let n = chars.len();
    proof {
        reveal_strlit(".ini");
        reveal_strlit(".cfg");
    }
    if n >= 4 && chars[n - 4] == '.' && chars[n - 3] == 'i' && chars[n - 2] == 'n' && chars[n - 1]
        == 'i' {
        proof {
            assert(chars@.subrange(n - 4, n as int) =~= ".ini"@);
        }
        let mut out = subvec(&chars, 0, n - 4);
        let suffix = chars_of(".cfg");
        push_all(&mut out, &suffix);
        proof {
            assert(out@ =~= spec_replace_ini_to_cfg(name@));
        }
        string_of(&out)
    } else {
        proof {
            if name@.len() >= 4 && name@.subrange(name@.len() - 4, name@.len() as int) == ".ini"@ {
                let sub = name@.subrange(name@.len() - 4, name@.len() as int);
                assert(sub[0] == name@[name@.len() - 4] && sub[1] == name@[name@.len() - 3]
                    && sub[2] == name@[name@.len() - 2] && sub[3] == name@[name@.len() - 1]);
                assert(sub[0] == '.' && sub[1] == 'i' && sub[2] == 'n' && sub[3] == 'i');
            }
        }
        string_of(&chars)
    }
}

/// What a locale file's content becomes before upload: escaped, and replaced
/// by a comment placeholder when empty, since the platform rejects an empty
/// payload.
pub open spec fn spec_content_for_upload(content: Seq<char>) -> Seq<char> {
    let escaped = spec_escape_text(content);
    if escaped.len() == 0 {
        "; empty"@
    } else {
        escaped
    }
}

/// Prepares a locale file's content for upload to the platform: escapes
/// reserved characters and substitutes a placeholder for empty content.
pub fn prepare_content_for_upload(content: &str) -> (r: String)
    ensures
        r@ == spec_content_for_upload(content@),
{
    let escaped = escape_strings_in_ini_file(content);
    if escaped.as_str().unicode_len() == 0 {
        String::from_str("; empty")
    } else {
        escaped
    }
}

/// Whether a platform translation build has finished: any reported status
/// other than in-progress ends the poll.
pub fn is_build_finished(status: &str) -> (r: bool)
    ensures
        r == (status@ != "inProgress"@),
{
    !crate::text::str_eq(status, "inProgress")
}

} // verus!
