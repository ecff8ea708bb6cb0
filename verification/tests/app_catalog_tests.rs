use std::hash::{Hash, Hasher};
use noticeflow::app_catalog::{
    application_from_info, application_info_from_plist, bundle_icon_file, file_stem, finder_name_from, find_application, icon_cache_file_name,
    icon_cache_file_expired, icon_cache_overflow, icon_candidates, insert_application, is_app_bundle, is_inside, png_data_url,
    render_application_icon_for_bundle, scan_applications, sort_applications, ApplicationInfo,
    ApplicationMap,
};

fn app(name: &str, bundle_id: &str, path: &str) -> ApplicationInfo {
    ApplicationInfo {
        name: name.to_string(),
        localized_name: None,
        bundle_id: bundle_id.to_string(),
        path: path.to_string(),
        icon_path: None,
        icon_cache_key: None,
        icon_data_url: None,
    }
}

#[test]
fn display_name_prefers_localized_name() {
    let mut item = app("DingTalk", "com.alibaba.DingTalk", "/Applications/DingTalk.app");
    assert_eq!(item.display_name(), "DingTalk");
    item.localized_name = Some("钉钉".to_string());
    assert_eq!(item.display_name(), "钉钉");
}

#[test]
fn applications_sort_by_localized_display_name() {
    let mut zulu = app("Zulu", "com.example.zulu", "/Applications/Zulu.app");
    zulu.localized_name = Some("Aardvark".to_string());
    let alpha = app("Beta", "com.example.beta", "/Applications/Beta.app");
    let mut apps = vec![alpha, zulu];

    sort_applications(&mut apps);

    assert_eq!(apps[0].bundle_id, "com.example.zulu");
}

#[test]
fn detects_app_bundles_case_insensitively() {
    assert!(is_app_bundle("/Applications/Foo.app"));
    assert!(is_app_bundle("/Applications/Foo.APP"));
    assert!(!is_app_bundle("/Applications/Foo"));
    assert!(!is_app_bundle("/Applications/Foo.appex"));
}

#[test]
fn application_insert_deduplicates_bundle_ids_case_insensitively() {
    let mut apps = ApplicationMap::new();
    insert_application(
        &mut apps,
        app("First", "com.Example.App", "/Applications/First.app"),
    );
    insert_application(
        &mut apps,
        app("Second", "com.example.app", "/Applications/Second.app"),
    );

    assert_eq!(apps.len(), 1);
    let only = apps.values().first().expect("application should be kept");
    assert_eq!(only.name, "First");
    assert_eq!(only.path, "/Applications/First.app");
}

#[test]
fn application_sort_is_stable_by_name_bundle_and_path() {
    let mut apps = vec![
        app("Zulu", "com.example.zulu", "/Applications/Zulu.app"),
        app("Alpha", "com.example.beta", "/Applications/Beta.app"),
        app("alpha", "com.example.alpha", "/Applications/Alpha.app"),
        app("Alpha", "com.example.alpha", "/Applications/Alpha-2.app"),
    ];

    sort_applications(&mut apps);

    let ordered: Vec<&str> = apps.iter().map(|item| item.path.as_str()).collect();
    assert_eq!(
        ordered,
        vec![
            "/Applications/Alpha-2.app",
            "/Applications/Alpha.app",
            "/Applications/Beta.app",
            "/Applications/Zulu.app",
        ]
    );
}

#[test]
fn icon_cache_file_name_tracks_source_changes() {
    let same = icon_cache_file_name("/Applications/Foo.app/Icon.icns", 10, 100, 0);

    assert_eq!(
        same,
        icon_cache_file_name("/Applications/Foo.app/Icon.icns", 10, 100, 0)
    );
    assert_ne!(
        same,
        icon_cache_file_name("/Applications/Foo.app/Icon.icns", 11, 100, 0)
    );
    assert_ne!(
        same,
        icon_cache_file_name("/Applications/Foo.app/Icon.icns", 10, 101, 0)
    );
    assert!(same.ends_with(".png"));
}

#[test]
fn icon_candidates_stay_in_resources() {
    assert_eq!(
        icon_candidates("/Applications/Foo.app", "AppIcon"),
        vec![
            "/Applications/Foo.app/Contents/Resources/AppIcon.icns".to_string(),
            "/Applications/Foo.app/Contents/Resources/AppIcon".to_string(),
        ]
    );
    assert_eq!(
        icon_candidates("/Applications/Foo.app", "AppIcon.icns"),
        vec!["/Applications/Foo.app/Contents/Resources/AppIcon.icns".to_string()]
    );
}

#[test]
fn resolved_icons_must_lie_inside_the_resources() {
    let resources = "/private/tmp/base/Foo.app/Contents/Resources";
    assert!(is_inside(
        "/private/tmp/base/Foo.app/Contents/Resources/AppIcon.icns",
        resources
    ));
    assert!(!is_inside("/private/tmp/base/outside.icns", resources));
    assert!(!is_inside(
        "/private/tmp/base/Foo.app/Contents/ResourcesX/AppIcon.icns",
        resources
    ));
    assert!(!is_inside("relative/AppIcon.icns", resources));
}

#[test]
fn bundle_names_fall_back_in_order() {
    assert_eq!(file_stem("/Applications/Foo Bar.app").as_deref(), Some("Foo Bar"));
    assert_eq!(finder_name_from("钉钉.app").as_deref(), Some("钉钉"));
    assert_eq!(finder_name_from(" .app"), None);

    let from_stem = application_from_info(
        "/Applications/Foo.app",
        "com.example.foo".to_string(),
        None,
        None,
        Some("Foo".to_string()),
        None,
        None,
    );
    assert_eq!(from_stem.name, "Foo");
    assert_eq!(from_stem.localized_name, None);

    let localized = application_from_info(
        "/Applications/DingTalk.app",
        "com.alibaba.DingTalk".to_string(),
        Some("DingTalk".to_string()),
        Some("Ding".to_string()),
        Some("钉钉".to_string()),
        None,
        None,
    );
    assert_eq!(localized.name, "DingTalk");
    assert_eq!(localized.localized_name.as_deref(), Some("钉钉"));
}

#[test]
fn scanning_keeps_the_first_bundle_of_each_id_in_listing_order() {
    let found = vec![
        app("Zulu", "com.example.zulu", "/Applications/Zulu.app"),
        app("First", "com.Example.App", "/Applications/First.app"),
        app("Second", "com.example.app", "/Users/me/Applications/Second.app"),
    ];
    let apps = scan_applications(found);
    let names: Vec<&str> = apps.iter().map(|item| item.name.as_str()).collect();
    assert_eq!(names, vec!["First", "Zulu"]);
}

#[test]
fn bundle_icons_prefer_the_cached_rendering() {
    let mut with_url = app("Foo", "com.example.foo", "/Applications/Foo.app");
    with_url.icon_data_url = Some("data:image/png;base64,AAAA".to_string());
    with_url.icon_path = Some("/Applications/Foo.app/Contents/Resources/Foo.icns".to_string());
    let mut with_path = app("Bar", "com.example.bar", "/Applications/Bar.app");
    with_path.icon_path = Some("/Applications/Bar.app/Contents/Resources/Bar.icns".to_string());
    let apps = vec![with_url, with_path];
    let render = |path: &String| Some(format!("rendered:{path}"));

    assert_eq!(
        render_application_icon_for_bundle(&apps, " COM.EXAMPLE.FOO ", &render).as_deref(),
        Some("data:image/png;base64,AAAA")
    );
    assert_eq!(
        render_application_icon_for_bundle(&apps, "com.example.bar", &render).as_deref(),
        Some("rendered:/Applications/Bar.app/Contents/Resources/Bar.icns")
    );
    assert_eq!(render_application_icon_for_bundle(&apps, "  ", &render), None);
    assert_eq!(
        render_application_icon_for_bundle(&apps, "com.example.none", &render),
        None
    );
    assert!(find_application(&apps, "com.example.none").is_none());
}

#[test]
fn png_data_urls_are_base64() {
    assert_eq!(png_data_url(b"hi"), "data:image/png;base64,aGk=");
}

const INFO_PLIST: &[u8] = br#"<?xml version="1.0" encoding="UTF-8"?>
<!DOCTYPE plist PUBLIC "-//Apple//DTD PLIST 1.0//EN" "http://www.apple.com/DTDs/PropertyList-1.0.dtd">
<plist version="1.0">
<dict>
  <key>CFBundleIdentifier</key>
  <string>com.alibaba.DingTalk</string>
  <key>CFBundleName</key>
  <string>DingTalk</string>
  <key>CFBundleIconFile</key>
  <string>AppIcon</string>
  <key>CFBundleVersion</key>
  <integer>7</integer>
</dict>
</plist>"#;

#[test]
fn info_plist_gives_the_catalog_entry() {
    let app = application_info_from_plist(
        "/Applications/DingTalk.app",
        INFO_PLIST,
        Some("钉钉".to_string()),
        Some("/Applications/DingTalk.app/Contents/Resources/AppIcon.icns".to_string()),
        None,
    )
    .expect("a bundle id is present");
    assert_eq!(app.bundle_id, "com.alibaba.DingTalk");
    assert_eq!(app.name, "DingTalk");
    assert_eq!(app.localized_name.as_deref(), Some("钉钉"));
    assert_eq!(app.path, "/Applications/DingTalk.app");
    assert_eq!(bundle_icon_file(INFO_PLIST).as_deref(), Some("AppIcon"));
}

#[test]
fn info_plist_without_bundle_id_gives_nothing() {
    let no_id = br#"<?xml version="1.0" encoding="UTF-8"?>
<plist version="1.0"><dict><key>CFBundleName</key><string>X</string></dict></plist>"#;
    assert!(application_info_from_plist("/Applications/X.app", no_id, None, None, None).is_none());
    assert!(application_info_from_plist("/Applications/X.app", b"not a plist", None, None, None).is_none());
    assert_eq!(bundle_icon_file(no_id), None);
}

#[test]
fn icon_cache_file_name_is_the_hash_of_path_size_time_and_tag() {
    let mut hasher = std::collections::hash_map::DefaultHasher::new();
    "/Applications/Foo.app/Icon.icns".hash(&mut hasher);
    10u64.hash(&mut hasher);
    100u64.hash(&mut hasher);
    7u32.hash(&mut hasher);
    "noticeflow-icon-64-v3".hash(&mut hasher);
    let expected = format!("{:x}.png", hasher.finish());
    assert_eq!(icon_cache_file_name("/Applications/Foo.app/Icon.icns", 10, 100, 7), expected);
}

#[test]
fn png_data_urls_pad_each_group_of_three_bytes() {
    assert_eq!(png_data_url(b""), "data:image/png;base64,");
    assert_eq!(png_data_url(&[1, 2, 3, 4]), "data:image/png;base64,AQIDBA==");
    assert_eq!(png_data_url(&[0xfb, 0xff, 0xbf]), "data:image/png;base64,+/+/");
    assert_eq!(png_data_url(b"Ma"), "data:image/png;base64,TWE=");
}

#[test]
fn icon_cache_drops_expired_and_the_oldest_beyond_the_limit() {
    assert!(!icon_cache_file_expired(3_888_000, 0));
    assert!(icon_cache_file_expired(3_888_000, 1));
    assert!(icon_cache_file_expired(3_888_001, 0));
    assert!(!icon_cache_file_expired(10, 999_999_999));

    let few: Vec<i128> = (0..300).map(|i| i as i128).collect();
    assert!(icon_cache_overflow(&few).is_empty());

    let mut times: Vec<i128> = (0..302).map(|i| 1_000 + i as i128).collect();
    times[5] = 1;
    times[7] = 1;
    times[9] = 0;
    assert_eq!(icon_cache_overflow(&times), vec![5, 9]);
}
