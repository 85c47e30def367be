use fml::github_config::parse_github_repo_info_json;
use fml::github_repo_info::{GithubModInfo, GithubRepoInfo};

#[test]
fn test_parse_mods_old_version() {
    assert_eq!(
        parse_github_repo_info_json("owner/repo", r#"["mod1", "mod2"]"#),
        Some(GithubRepoInfo {
            full_name: "owner/repo".to_owned(),
            mods: vec![
                GithubModInfo {
                    owner: "owner".to_owned(),
                    repo: "repo".to_owned(),
                    locale_path: "mod1/locale".to_owned(),
                    crowdin_name: Some("mod1".to_owned()),
                },
                GithubModInfo {
                    owner: "owner".to_owned(),
                    repo: "repo".to_owned(),
                    locale_path: "mod2/locale".to_owned(),
                    crowdin_name: Some("mod2".to_owned()),
                },
            ],
            weekly_update_from_crowdin: true,
            branch: None,
        })
    );
}

#[test]
fn test_parse_mods_short_version() {
    assert_eq!(
        parse_github_repo_info_json("owner/repo", r#"{"mods": ["mod1", "mod2"]}"#),
        Some(GithubRepoInfo {
            full_name: "owner/repo".to_owned(),
            mods: vec![
                GithubModInfo {
                    owner: "owner".to_owned(),
                    repo: "repo".to_owned(),
                    locale_path: "mod1/locale".to_owned(),
                    crowdin_name: Some("mod1".to_owned()),
                },
                GithubModInfo {
                    owner: "owner".to_owned(),
                    repo: "repo".to_owned(),
                    locale_path: "mod2/locale".to_owned(),
                    crowdin_name: Some("mod2".to_owned()),
                },
            ],
            weekly_update_from_crowdin: true,
            branch: None,
        })
    );
}

#[test]
fn test_parse_mods_long_version() {
    assert_eq!(
        parse_github_repo_info_json(
            "owner/repo",
            r#"{"mods": [{"localePath": "custom/path", "crowdinName": "Foo"}]}"#
        ),
        Some(GithubRepoInfo {
            full_name: "owner/repo".to_owned(),
            mods: vec![GithubModInfo {
                owner: "owner".to_owned(),
                repo: "repo".to_owned(),
                locale_path: "custom/path".to_owned(),
                crowdin_name: Some("Foo".to_owned()),
            },],
            weekly_update_from_crowdin: true,
            branch: None,
        })
    )
}

#[test]
fn test_parse_weekly_update_from_crowdin() {
    assert_eq!(
        parse_github_repo_info_json("owner/repo", r#"{"weekly_update_from_crowdin": false}"#),
        Some(GithubRepoInfo {
            full_name: "owner/repo".to_owned(),
            mods: vec![GithubModInfo {
                owner: "owner".to_owned(),
                repo: "repo".to_owned(),
                locale_path: "locale".to_owned(),
                crowdin_name: None,
            },],
            weekly_update_from_crowdin: false,
            branch: None,
        })
    );
    assert_eq!(
        parse_github_repo_info_json("owner/repo", r#"{"weekly_update_from_crowdin": true}"#),
        Some(GithubRepoInfo {
            full_name: "owner/repo".to_owned(),
            mods: vec![GithubModInfo {
                owner: "owner".to_owned(),
                repo: "repo".to_owned(),
                locale_path: "locale".to_owned(),
                crowdin_name: None,
            },],
            weekly_update_from_crowdin: true,
            branch: None,
        })
    );
}

#[test]
fn test_parse_branch() {
    assert_eq!(
        parse_github_repo_info_json("owner/repo", r#"{"branch": "dev"}"#),
        Some(GithubRepoInfo {
            full_name: "owner/repo".to_owned(),
            mods: vec![GithubModInfo {
                owner: "owner".to_owned(),
                repo: "repo".to_owned(),
                locale_path: "locale".to_owned(),
                crowdin_name: None,
            },],
            weekly_update_from_crowdin: true,
            branch: Some("dev".to_owned()),
        })
    );
}

#[test]
fn test_parse_all() {
    let json = r#"
    {
        "mods": ["mod1", "mod2"],
        "weekly_update_from_crowdin": false,
        "branch": "dev"
    }
    "#;
    assert_eq!(
        parse_github_repo_info_json("owner/repo", json),
        Some(GithubRepoInfo {
            full_name: "owner/repo".to_owned(),
            mods: vec![
                GithubModInfo {
                    owner: "owner".to_owned(),
                    repo: "repo".to_owned(),
                    locale_path: "mod1/locale".to_owned(),
                    crowdin_name: Some("mod1".to_owned()),
                },
                GithubModInfo {
                    owner: "owner".to_owned(),
                    repo: "repo".to_owned(),
                    locale_path: "mod2/locale".to_owned(),
                    crowdin_name: Some("mod2".to_owned()),
                },
            ],
            weekly_update_from_crowdin: false,
            branch: Some("dev".to_owned()),
        })
    );
}

#[test]
fn test_parse_rejects_invalid() {
    // Malformed JSON, a duplicate platform key, an invalid key, an invalid
    // locale path, and an empty mod list are all rejected without a panic.
    assert_eq!(parse_github_repo_info_json("owner/repo", "not json"), None);
    assert_eq!(parse_github_repo_info_json("owner/repo", r#"["mod1", "mod1"]"#), None);
    assert_eq!(
        parse_github_repo_info_json(
            "owner/repo",
            r#"{"mods": [{"localePath": "p", "crowdinName": "a b"}]}"#
        ),
        None
    );
    assert_eq!(
        parse_github_repo_info_json(
            "owner/repo",
            r#"{"mods": [{"localePath": "a//b", "crowdinName": "Foo"}]}"#
        ),
        None
    );
    assert_eq!(parse_github_repo_info_json("owner/repo", "[]"), None);
    assert_eq!(parse_github_repo_info_json("owner/repo", r#"{"mods": 5}"#), None);
    assert_eq!(parse_github_repo_info_json("owner/repo", r#"{"branch": 5}"#), None);
    assert_eq!(parse_github_repo_info_json("owner/repo", r#"{"weekly_update_from_crowdin": "x"}"#), None);
    assert_eq!(parse_github_repo_info_json("owner/repo", "17"), None);
}
