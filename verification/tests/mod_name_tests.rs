use fml::github_mod_name::{GithubModName, parse_github_mod_names_json,
    try_parse_github_mod_names_json};

#[test]
fn test_parse_github_mod_names_json() {
    assert_eq!(
        parse_github_mod_names_json("owner/repo", r#"["mod1", "mod2"]"#),
        vec![
            GithubModName {
                owner: "owner".to_owned(),
                repo: "repo".to_owned(),
                subpath: Some("mod1".to_owned()),
                weekly_update_from_crowdin: true,
            },
            GithubModName {
                owner: "owner".to_owned(),
                repo: "repo".to_owned(),
                subpath: Some("mod2".to_owned()),
                weekly_update_from_crowdin: true,
            },
        ]
    );
    assert_eq!(
        parse_github_mod_names_json("owner/repo", r#"{"mods": ["mod1", "mod2"]}"#),
        vec![
            GithubModName {
                owner: "owner".to_owned(),
                repo: "repo".to_owned(),
                subpath: Some("mod1".to_owned()),
                weekly_update_from_crowdin: true,
            },
            GithubModName {
                owner: "owner".to_owned(),
                repo: "repo".to_owned(),
                subpath: Some("mod2".to_owned()),
                weekly_update_from_crowdin: true,
            },
        ]
    );
    assert_eq!(
        parse_github_mod_names_json(
            "owner/repo",
            r#"{"mods": ["mod1", "mod2"], "weekly_update_from_crowdin": false}"#
        ),
        vec![
            GithubModName {
                owner: "owner".to_owned(),
                repo: "repo".to_owned(),
                subpath: Some("mod1".to_owned()),
                weekly_update_from_crowdin: false,
            },
            GithubModName {
                owner: "owner".to_owned(),
                repo: "repo".to_owned(),
                subpath: Some("mod2".to_owned()),
                weekly_update_from_crowdin: false,
            },
        ]
    );
    assert_eq!(
        parse_github_mod_names_json("owner/repo", r#"{"weekly_update_from_crowdin": false}"#),
        vec![GithubModName {
            owner: "owner".to_owned(),
            repo: "repo".to_owned(),
            subpath: None,
            weekly_update_from_crowdin: false,
        },]
    );
    assert_eq!(
        parse_github_mod_names_json("owner/repo", r#"{"weekly_update_from_crowdin": true}"#),
        vec![GithubModName {
            owner: "owner".to_owned(),
            repo: "repo".to_owned(),
            subpath: None,
            weekly_update_from_crowdin: true,
        },]
    );
}

#[test]
fn test_try_parse_rejects_invalid() {
    // Inputs on which the resolution fails: malformed JSON, a name with a
    // slash, an empty name, a name starting with a dot.
    assert_eq!(try_parse_github_mod_names_json("owner/repo", "not json"), None);
    assert_eq!(try_parse_github_mod_names_json("owner/repo", r#"["a/b"]"#), None);
    assert_eq!(try_parse_github_mod_names_json("owner/repo", r#"[""]"#), None);
    assert_eq!(try_parse_github_mod_names_json("owner/repo", r#"[".hidden"]"#), None);
    assert_eq!(try_parse_github_mod_names_json("owner/repo", "17"), None);
    assert!(try_parse_github_mod_names_json("owner/repo", r#"["ok"]"#).is_some());
}
