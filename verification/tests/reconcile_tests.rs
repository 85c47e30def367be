use fml::github_repo_info::GithubModInfo;
use fml::mod_directory::{FileEntry, ModDirectory, Subdir};
use fml::reconcile::{BundleDirectory, BundleLanguage, TranslationBundle,
    delete_unmatched_localization_files, language_is_enabled_for_mod_on_crowdin,
    move_translated_files_to_mod_directory};
use fml::util::remove_empty_ini_files;

fn file(name: &str, content: &str) -> FileEntry {
    FileEntry { name: name.to_owned(), content: content.to_owned() }
}

fn dir(name: &str, files: Vec<FileEntry>) -> Subdir {
    Subdir { name: name.to_owned(), files }
}

fn codes(list: &[&str]) -> Vec<String> {
    list.iter().map(|s| s.to_string()).collect()
}

fn names(d: &Subdir) -> Vec<String> {
    d.files.iter().map(|f| f.name.clone()).collect()
}

#[test]
fn orphan_deletion_keeps_only_matched_translations() {
    // English files {a.cfg}; a `ru` folder with {a.cfg, b.cfg}: after
    // cleanup only a.cfg remains under `ru`.
    let mut md = ModDirectory {
        locale_path: "locale".to_owned(),
        mod_info: GithubModInfo::new_root("owner/repo"),
        subdirs: vec![
            dir("en", vec![file("a.cfg", "k=v")]),
            dir("ru", vec![file("a.cfg", "k=x"), file("b.cfg", "k=y")]),
        ],
    };
    delete_unmatched_localization_files(&mut md, &codes(&["ru"]));
    assert_eq!(md.subdirs.len(), 2);
    assert_eq!(names(&md.subdirs[0]), vec!["a.cfg"]);
    assert_eq!(names(&md.subdirs[1]), vec!["a.cfg"]);
    assert_eq!(md.subdirs[1].files[0].content, "k=x");
}

#[test]
fn orphan_deletion_ignores_unsupported_folders() {
    let mut md = ModDirectory {
        locale_path: "locale".to_owned(),
        mod_info: GithubModInfo::new_root("owner/repo"),
        subdirs: vec![
            dir("en", vec![file("a.cfg", "k=v")]),
            dir("stray", vec![file("b.cfg", "k=y")]),
        ],
    };
    delete_unmatched_localization_files(&mut md, &codes(&["ru"]));
    assert_eq!(names(&md.subdirs[1]), vec!["b.cfg"]);
}

fn example_tree() -> ModDirectory {
    ModDirectory {
        locale_path: "locale".to_owned(),
        mod_info: GithubModInfo::new_root("owner/repo"),
        subdirs: vec![
            dir("en", vec![file("a.cfg", "k=v")]),
            dir("ru", vec![file("a.cfg", "old"), file("b.cfg", "orphan")]),
        ],
    }
}

fn example_bundle() -> TranslationBundle {
    TranslationBundle {
        languages: vec![BundleLanguage {
            language: "ru".to_owned(),
            directories: vec![BundleDirectory {
                name: "Repo (owner)".to_owned(),
                files: vec![file("a.ini", "k=new")],
            }],
        }],
    }
}

#[test]
fn reconcile_moves_translations_into_place() {
    let mut md = example_tree();
    move_translated_files_to_mod_directory(&mut md, &example_bundle(), &codes(&["ru"]));
    assert_eq!(md.subdirs.len(), 2);
    assert_eq!(names(&md.subdirs[0]), vec!["a.cfg"]);
    // The orphan b.cfg is gone, and a.cfg carries the downloaded content
    // under the repository extension.
    assert_eq!(names(&md.subdirs[1]), vec!["a.cfg"]);
    assert_eq!(md.subdirs[1].files[0].content, "k=new");
}

#[test]
fn reconcile_is_idempotent_on_example() {
    // Running the merge twice with the same bundle against the same
    // starting tree gives the tree of a single run.
    let mut once = example_tree();
    move_translated_files_to_mod_directory(&mut once, &example_bundle(), &codes(&["ru"]));
    let mut twice = once.clone();
    move_translated_files_to_mod_directory(&mut twice, &example_bundle(), &codes(&["ru"]));
    assert_eq!(once, twice);
}

#[test]
fn reconcile_creates_missing_language_folder() {
    let mut md = ModDirectory {
        locale_path: "locale".to_owned(),
        mod_info: GithubModInfo::new_root("owner/repo"),
        subdirs: vec![dir("en", vec![file("a.cfg", "k=v")])],
    };
    move_translated_files_to_mod_directory(&mut md, &example_bundle(), &codes(&["ru"]));
    assert_eq!(md.subdirs.len(), 2);
    assert_eq!(md.subdirs[1].name, "ru");
    assert_eq!(names(&md.subdirs[1]), vec!["a.cfg"]);
}

#[test]
fn reconcile_keeps_local_folder_spelling() {
    // The bundle speaks canonical `pt-BR`; the repository folder spells it
    // `pt-br` and keeps that spelling on write-back.
    let mut md = ModDirectory {
        locale_path: "locale".to_owned(),
        mod_info: GithubModInfo::new_root("owner/repo"),
        subdirs: vec![
            dir("en", vec![file("a.cfg", "k=v")]),
            dir("pt-br", vec![file("a.cfg", "old")]),
        ],
    };
    let bundle = TranslationBundle {
        languages: vec![BundleLanguage {
            language: "pt-BR".to_owned(),
            directories: vec![BundleDirectory {
                name: "Repo (owner)".to_owned(),
                files: vec![file("a.ini", "k=br")],
            }],
        }],
    };
    move_translated_files_to_mod_directory(&mut md, &bundle, &codes(&["pt-BR"]));
    assert_eq!(md.subdirs.len(), 2);
    assert_eq!(md.subdirs[1].name, "pt-br");
    assert_eq!(md.subdirs[1].files[0].content, "k=br");
}

#[test]
fn reconcile_skips_empty_bundle_directory() {
    let mut md = example_tree();
    let bundle = TranslationBundle {
        languages: vec![BundleLanguage {
            language: "ru".to_owned(),
            directories: vec![BundleDirectory { name: "Repo (owner)".to_owned(), files: vec![] }],
        }],
    };
    move_translated_files_to_mod_directory(&mut md, &bundle, &codes(&["ru"]));
    // Cleanup still ran, but no folder was touched by the merge.
    assert_eq!(names(&md.subdirs[1]), vec!["a.cfg"]);
    assert_eq!(md.subdirs[1].files[0].content, "old");
}

#[test]
fn language_gating_applies_to_the_named_repository_only() {
    let pirate = GithubModInfo::new_root("PennyJim/pirate-locale");
    assert!(language_is_enabled_for_mod_on_crowdin(&pirate, "fr"));
    assert!(!language_is_enabled_for_mod_on_crowdin(&pirate, "ru"));
    let other = GithubModInfo::new_root("owner/repo");
    assert!(language_is_enabled_for_mod_on_crowdin(&other, "ru"));
}

#[test]
fn gated_language_is_not_merged() {
    let mut md = ModDirectory {
        locale_path: "locale".to_owned(),
        mod_info: GithubModInfo::new_root("PennyJim/pirate-locale"),
        subdirs: vec![dir("en", vec![file("a.cfg", "k=v")])],
    };
    let bundle = TranslationBundle {
        languages: vec![BundleLanguage {
            language: "ru".to_owned(),
            directories: vec![BundleDirectory {
                name: "Pirate Locale (PennyJim)".to_owned(),
                files: vec![file("a.ini", "k=ru")],
            }],
        }],
    };
    move_translated_files_to_mod_directory(&mut md, &bundle, &codes(&["ru"]));
    assert_eq!(md.subdirs.len(), 1);
}

#[test]
fn remove_empty_ini_files_prunes_only_empty_files() {
    let mut bundle = TranslationBundle {
        languages: vec![BundleLanguage {
            language: "ru".to_owned(),
            directories: vec![BundleDirectory {
                name: "Repo (owner)".to_owned(),
                files: vec![
                    file("a.ini", "[section]\n; comment\n   \n"),
                    file("b.ini", "[section]\nk=v\n"),
                ],
            }],
        }],
    };
    remove_empty_ini_files(&mut bundle);
    let files: Vec<String> = bundle.languages[0].directories[0]
        .files
        .iter()
        .map(|f| f.name.clone())
        .collect();
    assert_eq!(files, vec!["b.ini"]);
}
