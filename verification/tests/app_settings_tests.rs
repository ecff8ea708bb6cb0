use noticeflow::app_settings::{
    app_data_dir, data_dir_for_settings, launch_at_login_enabled, normalize_ignored_app_identifiers,
    normalize_settings,
    unsafe_data_directory_reason, validate_data_directory, validate_settings, AppSettings,
    DirectoryProbe,
};

fn existing_directory_probe(path: &str) -> DirectoryProbe {
    DirectoryProbe {
        nearest_existing: Some(path.to_string()),
        is_dir: Ok(true),
        canonical: Ok(path.to_string()),
    }
}

#[test]
fn normalizes_settings_before_use() {
    let mut settings = AppSettings {
        launch_at_login: false,
        data_directory: Some("  /tmp/noticeflow-data/  ".to_string()),
        app_filter_mode: Some("bad".to_string()),
        ignored_app_identifiers: vec![
            " com.apple.mail ".to_string(),
            "COM.APPLE.MAIL".to_string(),
            "".to_string(),
            "com.example.App".to_string(),
        ],
    };

    normalize_settings(&mut settings);

    assert_eq!(
        settings.data_directory.as_deref(),
        Some("/tmp/noticeflow-data")
    );
    assert_eq!(settings.app_filter_mode.as_deref(), Some("exclude"));
    assert_eq!(
        settings.ignored_app_identifiers,
        vec!["com.apple.mail".to_string(), "com.example.App".to_string()]
    );
}

#[test]
fn removes_blank_data_directory() {
    let mut settings = AppSettings {
        launch_at_login: false,
        data_directory: Some("  ".to_string()),
        app_filter_mode: None,
        ignored_app_identifiers: Vec::new(),
    };

    normalize_settings(&mut settings);

    assert_eq!(settings.data_directory, None);
}

#[test]
fn keeps_root_data_directory() {
    let mut settings = AppSettings {
        launch_at_login: false,
        data_directory: Some(" / ".to_string()),
        app_filter_mode: Some("include".to_string()),
        ignored_app_identifiers: Vec::new(),
    };

    normalize_settings(&mut settings);

    assert_eq!(settings.data_directory.as_deref(), Some("/"));
}

#[test]
fn rejects_unsafe_loaded_settings_data_directory() {
    let mut settings = AppSettings {
        launch_at_login: false,
        data_directory: Some(" / ".to_string()),
        app_filter_mode: Some("exclude".to_string()),
        ignored_app_identifiers: Vec::new(),
    };

    normalize_settings(&mut settings);
    let error = validate_settings(&settings, &existing_directory_probe("/"))
        .expect_err("unsafe loaded data directory should be rejected");

    assert!(error.contains("数据目录不安全"));
}

#[test]
fn data_dir_for_settings_rejects_unsafe_directory() {
    let settings = AppSettings {
        launch_at_login: false,
        data_directory: Some("/".to_string()),
        app_filter_mode: Some("exclude".to_string()),
        ignored_app_identifiers: Vec::new(),
    };

    assert!(data_dir_for_settings(&settings, &existing_directory_probe("/")).is_err());
}

#[test]
fn rejects_unsafe_data_directory_locations() {
    for path in [
        "/",
        "/Users",
        "/System/Library",
        "/Library/NoticeFlow",
        "/Applications/NoticeFlow.app/Data",
        "/tmp/noticeflow",
        "/Users/Shared/NoticeFlow",
        "/Volumes",
        "/Volumes/ExternalDrive",
    ] {
        assert!(
            unsafe_data_directory_reason(path).is_some(),
            "{path} should be rejected"
        );
    }

    if let Some(home) = dirs::home_dir() {
        for path in [
            home.clone(),
            home.join("Desktop"),
            home.join("Documents"),
            home.join("Downloads"),
            home.join("Library"),
            home.join("Library").join("Application Support"),
        ] {
            assert!(
                unsafe_data_directory_reason(&path.to_string_lossy()).is_some(),
                "{} should be rejected",
                path.display()
            );
        }
    }
}

#[test]
fn allows_dedicated_user_or_volume_data_directories() {
    for path in [
        "/Users/example/Documents/NoticeFlow",
        "/Users/example/Library/Application Support/NoticeFlow",
        "/Volumes/ExternalDrive/NoticeFlow",
    ] {
        assert!(
            unsafe_data_directory_reason(path).is_none(),
            "{path} should be allowed"
        );
    }
}

#[test]
fn allows_new_dedicated_directory_under_user_document_folder() {
    let Some(home) = dirs::home_dir() else {
        return;
    };
    let documents = home.join("Documents");
    if !documents.is_dir() {
        return;
    }
    let directory = documents.join(format!("NoticeFlow-{}", uuid::Uuid::new_v4()));
    let canonical_documents = documents
        .canonicalize()
        .map(|path| path.to_string_lossy().to_string())
        .unwrap_or_else(|_| documents.to_string_lossy().to_string());
    let probe = DirectoryProbe {
        nearest_existing: Some(documents.to_string_lossy().to_string()),
        is_dir: Ok(true),
        canonical: Ok(canonical_documents),
    };

    let result = validate_data_directory(&directory.to_string_lossy(), &probe);

    assert!(result.is_ok());
    assert!(!directory.exists());
}

#[test]
fn dedicated_directories_validate_where_they_resolve_safely() {
    let directory = "/Users/example/Library/Application Support/NoticeFlow";
    assert!(validate_data_directory(directory, &existing_directory_probe(directory)).is_ok());

    let missing_parent = DirectoryProbe {
        nearest_existing: None,
        is_dir: Ok(false),
        canonical: Err("missing".to_string()),
    };
    assert!(validate_data_directory(directory, &missing_parent).is_err());

    let not_a_directory = DirectoryProbe {
        nearest_existing: Some(directory.to_string()),
        is_dir: Ok(false),
        canonical: Ok(directory.to_string()),
    };
    assert!(validate_data_directory(directory, &not_a_directory).is_err());
}

#[test]
fn loaded_settings_name_the_data_directory() {
    let directory = "/Users/example/Library/Application Support/NoticeFlow";
    let settings = AppSettings {
        launch_at_login: false,
        data_directory: Some(format!("  {directory} ")),
        app_filter_mode: None,
        ignored_app_identifiers: Vec::new(),
    };
    assert_eq!(
        app_data_dir(Ok(settings), &existing_directory_probe(directory)).as_deref(),
        Ok(directory)
    );
    assert_eq!(
        app_data_dir(Err("broken".to_string()), &existing_directory_probe(directory)),
        Err("broken".to_string())
    );
}

#[test]
fn login_launch_is_on_when_any_agent_exists() {
    assert!(launch_at_login_enabled(Some(true), &vec![]));
    assert!(launch_at_login_enabled(None, &vec![false, true]));
    assert!(!launch_at_login_enabled(Some(false), &vec![false]));
    assert!(!launch_at_login_enabled(None, &vec![]));
}

#[test]
fn normalizing_identifiers_twice_changes_nothing() {
    let items = vec![
        " com.Zeta.app ".to_string(),
        "com.apple.mail".to_string(),
        "COM.APPLE.MAIL".to_string(),
        "".to_string(),
        "Com.Beta".to_string(),
        "com.beta ".to_string(),
    ];
    let once = normalize_ignored_app_identifiers(&items);
    assert_eq!(
        once,
        vec!["com.apple.mail".to_string(), "Com.Beta".to_string(), "com.Zeta.app".to_string()]
    );
    assert_eq!(normalize_ignored_app_identifiers(&once), once);
}

#[test]
fn normalizing_settings_twice_changes_nothing() {
    let mut settings = AppSettings {
        launch_at_login: true,
        data_directory: Some("  /tmp/noticeflow-data///  ".to_string()),
        app_filter_mode: Some(" include ".to_string()),
        ignored_app_identifiers: vec![" B.app ".to_string(), "a.app".to_string(), "b.APP".to_string()],
    };
    normalize_settings(&mut settings);
    let once = settings.clone();
    normalize_settings(&mut settings);
    assert_eq!(settings.data_directory, once.data_directory);
    assert_eq!(settings.app_filter_mode.as_deref(), Some("include"));
    assert_eq!(settings.app_filter_mode, once.app_filter_mode);
    assert_eq!(settings.ignored_app_identifiers, once.ignored_app_identifiers);
    assert_eq!(settings.launch_at_login, once.launch_at_login);

    let mut exposed = AppSettings { data_directory: Some("a/ /".to_string()), ..AppSettings::default() };
    normalize_settings(&mut exposed);
    assert_eq!(exposed.data_directory.as_deref(), Some("a/ "));
    normalize_settings(&mut exposed);
    assert_eq!(exposed.data_directory.as_deref(), Some("a"));
}
