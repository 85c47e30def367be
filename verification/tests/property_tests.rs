use fml::case::to_title_case;
use fml::crowdin::{get_crowdin_directory_name, is_correct_language_code,
    normalize_language_code, prepare_content_for_upload, replace_cfg_to_ini, replace_ini_to_cfg};
use fml::github::{GetRepoInfoError, check_fork_exists, filter_repositories_for_update_all,
    has_interesting_changes, repo_info_from_listing};
use fml::github_config::parse_github_repo_info_json;
use fml::github_mod_name::GithubModName;
use fml::github_repo_info::{GithubModInfo, GithubRepoInfo};
use fml::mod_directory::{FileEntry, ModDirectory, Subdir};
use fml::util::{file_name, is_empty_ini_file};

fn strings(list: &[&str]) -> Vec<String> {
    list.iter().map(|s| s.to_string()).collect()
}

#[test]
fn title_case_is_idempotent_on_examples() {
    for s in [
        "fooBar",
        "factorio-mod-example",
        "LTN-Language-Pack",
        "Noxys StackSizeMultiplier",
        "Factorissimo2",
        "-_.foo-_.bar-_.",
        "",
        "FOO BAR",
    ] {
        let once = to_title_case(s);
        assert_eq!(to_title_case(&once), once);
    }
}

#[test]
fn directory_name_is_deterministic() {
    let m = GithubModInfo::new_custom("owner/factorio-mod-example", None, "Mod1".to_owned())
        .unwrap();
    assert_eq!(get_crowdin_directory_name(&m), get_crowdin_directory_name(&m));
    assert_eq!(get_crowdin_directory_name(&m), "Factorio Mod Example - Mod1 (owner)");
}

#[test]
fn directory_name_owner_changes_only_suffix() {
    let a = GithubModInfo::new_root("alice/factorio-mod-example");
    let b = GithubModInfo::new_root("bob/factorio-mod-example");
    let name_a = get_crowdin_directory_name(&a);
    let name_b = get_crowdin_directory_name(&b);
    assert_eq!(name_a, "Factorio Mod Example (alice)");
    assert_eq!(name_b, "Factorio Mod Example (bob)");
    assert_eq!(
        name_a.strip_suffix("(alice)").unwrap(),
        name_b.strip_suffix("(bob)").unwrap()
    );
}

#[test]
fn config_of_two_short_mods_maps_to_two_directories() {
    // Repo config ["Mod1","Mod2"] for owner/repo yields two mods with
    // locale paths Mod1/locale and Mod2/locale and the mapped names
    // "Repo - Mod1 (owner)" and "Repo - Mod2 (owner)".
    let ri = parse_github_repo_info_json("owner/repo", r#"["Mod1","Mod2"]"#).unwrap();
    assert_eq!(ri.mods.len(), 2);
    assert_eq!(ri.mods[0].locale_path, "Mod1/locale");
    assert_eq!(ri.mods[1].locale_path, "Mod2/locale");
    assert_eq!(get_crowdin_directory_name(&ri.mods[0]), "Repo - Mod1 (owner)");
    assert_eq!(get_crowdin_directory_name(&ri.mods[1]), "Repo - Mod2 (owner)");
}

#[test]
fn repository_without_config_resolves_to_single_mod() {
    // No config file, repository dima74/factorio-mod-example with a
    // populated locale/en: a single default descriptor.
    let root = strings(&["README.md", "locale"]);
    let en = Some(strings(&["en.cfg"]));
    let ri = repo_info_from_listing("dima74/factorio-mod-example", &root, &None, &en).unwrap();
    assert_eq!(ri.mods.len(), 1);
    assert_eq!(ri.mods[0].locale_path, "locale");
    assert_eq!(ri.mods[0].crowdin_name, None);
    assert_eq!(
        get_crowdin_directory_name(&ri.mods[0]),
        "Factorio Mod Example (dima74)"
    );
}

#[test]
fn repository_listing_errors_are_distinguished() {
    let no_locale = strings(&["README.md"]);
    assert_eq!(
        repo_info_from_listing("o/r", &no_locale, &None, &None),
        Err(GetRepoInfoError::LocaleDirectoryMissing)
    );
    let locale_only = strings(&["locale"]);
    assert_eq!(
        repo_info_from_listing("o/r", &locale_only, &None, &None),
        Err(GetRepoInfoError::LocaleEnDirectoryMissingOrEmpty)
    );
    assert_eq!(
        repo_info_from_listing("o/r", &locale_only, &None, &Some(vec![])),
        Err(GetRepoInfoError::LocaleEnDirectoryMissingOrEmpty)
    );
    let with_config = strings(&["factorio-mods-localization.json"]);
    assert_eq!(
        repo_info_from_listing("o/r", &with_config, &Some("bad".to_owned()), &None),
        Err(GetRepoInfoError::InvalidConfig)
    );
    let ok = repo_info_from_listing(
        "o/r",
        &with_config,
        &Some(r#"["m1"]"#.to_owned()),
        &None,
    )
    .unwrap();
    assert_eq!(ok.mods[0].locale_path, "m1/locale");
}

#[test]
fn language_code_normalization() {
    assert_eq!(normalize_language_code("pt-br"), "pt-BR");
    assert_eq!(normalize_language_code("pt-BR"), "pt-BR");
    assert_eq!(normalize_language_code("PT-br"), "pt-BR");
    assert_eq!(normalize_language_code("EN"), "en");
    assert_eq!(normalize_language_code("zh-cn"), "zh-CN");
    assert!(is_correct_language_code("pt-BR", &strings(&["ru", "pt-BR"])));
    assert!(!is_correct_language_code("pt-br", &strings(&["ru", "pt-BR"])));
}

#[test]
fn localizations_use_canonical_code_and_keep_folder_name() {
    // A folder spelled pt-br is reported under the canonical pt-BR while
    // the on-disk name is preserved for write-back.
    let md = ModDirectory {
        locale_path: "locale".to_owned(),
        mod_info: GithubModInfo::new_root("owner/repo"),
        subdirs: vec![
            Subdir {
                name: "en".to_owned(),
                files: vec![FileEntry { name: "a.cfg".to_owned(), content: "k=v".to_owned() }],
            },
            Subdir {
                name: "pt-br".to_owned(),
                files: vec![FileEntry { name: "a.cfg".to_owned(), content: "k=b".to_owned() }],
            },
        ],
    };
    let codes = strings(&["pt-BR"]);
    let locs = md.get_localizations(&codes);
    assert_eq!(locs.len(), 1);
    assert_eq!(locs[0].0, "pt-BR");
    assert_eq!(locs[0].1, vec!["a.cfg"]);
    let dirs = md.get_language_directories(&codes);
    assert_eq!(dirs, vec![("pt-BR".to_owned(), "pt-br".to_owned())]);
}

#[test]
fn structure_checks_report_unmatched_translations() {
    let md = ModDirectory {
        locale_path: "locale".to_owned(),
        mod_info: GithubModInfo::new_root("owner/repo"),
        subdirs: vec![
            Subdir {
                name: "en".to_owned(),
                files: vec![FileEntry { name: "a.cfg".to_owned(), content: String::new() }],
            },
            Subdir {
                name: "ru".to_owned(),
                files: vec![
                    FileEntry { name: "a.cfg".to_owned(), content: String::new() },
                    FileEntry { name: "b.cfg".to_owned(), content: String::new() },
                ],
            },
        ],
    };
    let codes = strings(&["ru"]);
    assert!(md.check_for_locale_folder());
    assert!(!md.check_translation_files_match_english_files(&codes));
    assert!(!md.check_structure(&codes));
    let (language, file) = md.find_unmatched_translation(&codes).unwrap();
    assert_eq!(language, "ru");
    assert_eq!(file, "b.cfg");
    assert_eq!(md.get_english_files(), vec!["a.cfg"]);
    assert_eq!(md.locale_en_path(), "locale/en");
}

#[test]
fn extension_renames() {
    assert_eq!(replace_cfg_to_ini("base.cfg"), "base.ini");
    assert_eq!(replace_ini_to_cfg("base.ini"), "base.cfg");
    assert_eq!(replace_cfg_to_ini("nochange.txt"), "nochange.txt");
    assert_eq!(replace_ini_to_cfg("nochange.txt"), "nochange.txt");
    // Only the literal extension is mapped: a name merely ending in the
    // three letters passes through unchanged.
    assert_eq!(replace_cfg_to_ini("xcfg"), "xcfg");
    assert_eq!(replace_cfg_to_ini("acfg.cfg"), "acfg.ini");
    assert_eq!(replace_ini_to_cfg("mini"), "mini");
    assert_eq!(replace_ini_to_cfg(&replace_cfg_to_ini("a.cfg")), "a.cfg");
}

#[test]
fn english_files_lists_every_regular_file() {
    let md = ModDirectory {
        locale_path: "locale".to_owned(),
        mod_info: GithubModInfo::new_root("owner/repo"),
        subdirs: vec![Subdir {
            name: "en".to_owned(),
            files: vec![
                FileEntry { name: "a.cfg".to_owned(), content: String::new() },
                FileEntry { name: "b.txt".to_owned(), content: String::new() },
            ],
        }],
    };
    assert_eq!(md.get_english_files(), vec!["a.cfg", "b.txt"]);
}

#[test]
fn secret_check() {
    assert!(fml::util::check_secret(&Some("sesame".to_owned()), "sesame"));
    assert!(!fml::util::check_secret(&Some("wrong".to_owned()), "sesame"));
    assert!(!fml::util::check_secret(&None, "sesame"));
}

#[test]
fn upload_content_is_escaped_and_never_empty() {
    assert_eq!(prepare_content_for_upload(""), "; empty");
    assert_eq!(prepare_content_for_upload("k=a;b\n"), "k=\"a;b\"\n");
    assert_eq!(prepare_content_for_upload("k=v"), "k=v");
}

#[test]
fn build_status_polling_decision() {
    assert!(!fml::crowdin::is_build_finished("inProgress"));
    assert!(fml::crowdin::is_build_finished("finished"));
    assert!(fml::crowdin::is_build_finished("failed"));
}

#[test]
fn empty_ini_detection() {
    assert!(is_empty_ini_file(""));
    assert!(is_empty_ini_file("\n"));
    assert!(is_empty_ini_file("[section]\n; comment\n   \t\n"));
    assert!(is_empty_ini_file("[a]\r\n;b\r\n"));
    assert!(!is_empty_ini_file("k=v\n"));
    assert!(!is_empty_ini_file("[s]\nk=v"));
}

#[test]
fn file_name_takes_last_component() {
    assert_eq!(file_name("a/b/c.cfg"), "c.cfg");
    assert_eq!(file_name("c.cfg"), "c.cfg");
    assert_eq!(file_name("locale/en/x.cfg"), "x.cfg");
}

#[test]
fn interesting_changes_detection() {
    assert!(!has_interesting_changes(&strings(&["README.md", "src/main.lua"])));
    assert!(has_interesting_changes(&strings(&["locale/en/a.cfg"])));
    assert!(has_interesting_changes(&strings(&["Mod1/locale/en/a.cfg"])));
    assert!(has_interesting_changes(&strings(&["factorio-mods-localization.json"])));
    assert!(!has_interesting_changes(&strings(&["locale/ru/a.cfg"])));
}

#[test]
fn fork_listing_decides_reuse() {
    assert_eq!(check_fork_exists(&strings(&["other/x"]), "repo"), None);
    assert_eq!(
        check_fork_exists(&strings(&["other/x", "factorio-mods-helper/repo"]), "repo"),
        Some(true)
    );
    assert_eq!(
        check_fork_exists(&strings(&["factorio-mods-helper/renamed"]), "repo"),
        Some(false)
    );
}

#[test]
fn update_all_filter_drops_ignored_and_disabled() {
    let keep = parse_github_repo_info_json("owner/repo", r#"["m1"]"#).unwrap();
    let disabled =
        parse_github_repo_info_json("owner/two", r#"{"weekly_update_from_crowdin": false}"#)
            .unwrap();
    let ignored = GithubRepoInfo::new_single_mod("robot256/cargo_ships");
    let result = filter_repositories_for_update_all(vec![
        (keep, 1u64),
        (disabled, 2u64),
        (ignored, 3u64),
    ]);
    assert_eq!(result.len(), 1);
    assert_eq!(result[0].0.full_name, "owner/repo");
    assert_eq!(result[0].1, 1u64);
}

#[test]
fn repo_info_mod_filters() {
    let mut ri = parse_github_repo_info_json("owner/repo", r#"["m1", "m2"]"#).unwrap();
    let dirs = strings(&["Repo - M2 (owner)"]);
    let filtered = ri.clone().filter_mods_present_on_crowdin(&dirs).unwrap();
    assert_eq!(filtered.mods.len(), 1);
    assert_eq!(filtered.mods[0].crowdin_name, Some("m2".to_owned()));
    assert_eq!(ri.clone().filter_mods_present_on_crowdin(&strings(&[])), None);
    assert!(ri.keep_single_mod_with_crowdin_name("m1"));
    assert_eq!(ri.mods.len(), 1);
    assert_eq!(ri.mods[0].crowdin_name, Some("m1".to_owned()));
    assert!(!ri.keep_single_mod_with_crowdin_name("absent"));
}

#[test]
fn mod_name_construction() {
    let n = GithubModName::new("owner/repo", Some("Mod1".to_owned()), None);
    assert_eq!(n.owner, "owner");
    assert_eq!(n.repo, "repo");
    assert_eq!(n.subpath, Some("Mod1".to_owned()));
    assert!(n.weekly_update_from_crowdin);
    let one = GithubRepoInfo::new_one_mod_with_subpath("owner/repo", "Mod1".to_owned()).unwrap();
    assert_eq!(one.mods[0].locale_path, "Mod1/locale");
    assert_eq!(GithubRepoInfo::new_one_mod_with_subpath("owner/repo", "a/b".to_owned()), None);
}
