use yojo_backend::drive::{
    check_file, check_storage, correct_filename, file_marked_sensitive, get_proxied_url,
    get_public_properties, get_public_url, get_thumbnail_url, initial_properties,
    is_media_silenced_host, sensitive_threshold_tenths, size_column, skip_sensitive_detection,
    stored_file_urls, validate_file_name, FileProperties, MediaUrlConfig, MiDriveFile,
    RegisterPreflightError, SensitiveMediaDetection, SensitiveMediaDetectionSensitivity,
    SensitivityProfile, Uploader,
};

fn file(props: FileProperties) -> MiDriveFile {
    MiDriveFile {
        id: "0000000000".to_owned(),
        user_id: None,
        name: "a.png".to_owned(),
        md5: "d41d8cd98f00b204e9800998ecf8427e".to_owned(),
        size: 0,
        size_long: 0,
        is_sensitive: false,
        blurhash: None,
        comment: None,
        folder_id: None,
        properties: props,
        mime_type: "image/png".to_owned(),
        url: "https://local.example/files/abc".to_owned(),
        uri: None,
        user_host: None,
        is_link: false,
        thumbnail_url: None,
        webpublic_url: None,
        webpublic_access_key: None,
    }
}

fn config() -> MediaUrlConfig {
    MediaUrlConfig {
        url: "https://local.example".to_owned(),
        media_proxy: Some("https://proxy.example".to_owned()),
        proxy_remote_files: Some(true),
        remote_proxy: None,
        ap_file_base_url: None,
    }
}

#[test]
fn public_properties_swap_rotated_dimensions() {
    let f = file(FileProperties { width: Some(10), height: Some(20), orientation: Some(6) });
    assert_eq!(
        get_public_properties(&f),
        FileProperties { width: Some(20), height: Some(10), orientation: None }
    );
    let f = file(FileProperties { width: Some(10), height: Some(20), orientation: Some(3) });
    assert_eq!(
        get_public_properties(&f),
        FileProperties { width: Some(10), height: Some(20), orientation: None }
    );
    let f = file(FileProperties { width: Some(10), height: None, orientation: None });
    assert_eq!(
        get_public_properties(&f),
        FileProperties { width: Some(10), height: None, orientation: None }
    );
}

#[test]
fn silenced_hosts_compare_in_lower_case() {
    let hosts = vec!["silenced.example".to_owned()];
    assert!(is_media_silenced_host(&hosts, Some("SILENCED.example")));
    assert!(!is_media_silenced_host(&hosts, Some("other.example")));
    assert!(!is_media_silenced_host(&hosts, None));
    assert!(!is_media_silenced_host(&vec![], Some("silenced.example")));
}

#[test]
fn file_name_validation() {
    assert!(validate_file_name("photo.png"));
    assert!(!validate_file_name(""));
    assert!(!validate_file_name(" \t "));
    assert!(!validate_file_name("a/b"));
    assert!(!validate_file_name("a\\b"));
    assert!(!validate_file_name("a..b"));
    assert!(validate_file_name(&"a".repeat(200)));
    assert!(!validate_file_name(&"a".repeat(201)));
    assert!(!validate_file_name(&"あ".repeat(67)));
    assert!(validate_file_name(&"あ".repeat(66)));
}

#[test]
fn filename_correction() {
    assert_eq!(correct_filename("photo.JPG", Some("jpg")), "photo.JPG");
    assert_eq!(correct_filename("photo.jpeg", Some("jpg")), "photo.jpeg");
    assert_eq!(correct_filename("scan.tiff", Some(".tif")), "scan.tiff");
    assert_eq!(correct_filename("lib.dll", Some("exe")), "lib.dll");
    assert_eq!(correct_filename("photo", Some("png")), "photo.png");
    assert_eq!(correct_filename("notes.txt", Some("png")), "notes.txt.png");
    assert_eq!(correct_filename("notes.txt", None), "notes.txt");
    assert_eq!(correct_filename("notes", None), "notes.unknown");
    assert_eq!(correct_filename("backup.tar", Some(".gz")), "backup.tar");
}

#[test]
fn proxied_urls() {
    let c = config();
    assert_eq!(
        get_proxied_url(&c, "https://remote.example/a.png", None),
        "https://proxy.example/image.webp?url=https://remote.example/a.png"
    );
    assert_eq!(
        get_proxied_url(&c, "https://remote.example/a.png", Some("static")),
        "https://proxy.example/static.webp?url=https://remote.example/a.png&static=1"
    );
    let mut c2 = config();
    c2.media_proxy = None;
    assert_eq!(get_proxied_url(&c2, "https://remote.example/a.png", None), "https://remote.example/a.png");
}

#[test]
fn thumbnail_urls() {
    let c = config();
    let mut f = file(FileProperties { width: None, height: None, orientation: None });
    assert_eq!(get_thumbnail_url(&c, &f), Some("https://local.example/files/abc".to_owned()));
    f.mime_type = "application/pdf".to_owned();
    assert_eq!(get_thumbnail_url(&c, &f), None);
    f.mime_type = "video/mp4".to_owned();
    f.thumbnail_url = Some("https://local.example/thumb".to_owned());
    assert_eq!(get_thumbnail_url(&c, &f), Some("https://local.example/thumb".to_owned()));
    f.mime_type = "image/png".to_owned();
    f.thumbnail_url = None;
    f.uri = Some("https://remote.example/a.png".to_owned());
    f.user_host = Some("remote.example".to_owned());
    assert_eq!(
        get_thumbnail_url(&c, &f),
        Some("https://proxy.example/static.webp?url=https://remote.example/a.png&static=1".to_owned())
    );
}

#[test]
fn public_urls() {
    let mut c = config();
    let mut f = file(FileProperties { width: None, height: None, orientation: None });
    assert_eq!(get_public_url(&c, &f, None, false), "https://local.example/files/abc");
    f.webpublic_url = Some("https://local.example/files/web".to_owned());
    assert_eq!(get_public_url(&c, &f, None, false), "https://local.example/files/web");
    f.uri = Some("https://remote.example/a.png".to_owned());
    f.user_host = Some("remote.example".to_owned());
    f.webpublic_access_key = Some("key1".to_owned());
    c.remote_proxy = Some("/proxy".to_owned());
    assert_eq!(get_public_url(&c, &f, None, false), "https://local.example/proxy/key1");
    c.remote_proxy = Some("https://rp.example".to_owned());
    assert_eq!(get_public_url(&c, &f, None, false), "https://rp.example/key1");
    assert_eq!(
        get_public_url(&c, &f, Some("avatar"), false),
        "https://proxy.example/avatar.webp?url=https://remote.example/a.png&avatar=1"
    );
}

#[test]
fn public_url_for_activitypub_moves_to_the_file_base() {
    let mut c = config();
    c.ap_file_base_url = Some("https://files.example/base".to_owned());
    let f = file(FileProperties { width: None, height: None, orientation: None });
    assert_eq!(get_public_url(&c, &f, None, true), "https://files.example/base/files/abc");
}

#[test]
fn sensitive_detection_scope() {
    assert!(skip_sensitive_detection(Uploader::System, false, SensitiveMediaDetection::All));
    assert!(skip_sensitive_detection(Uploader::Local, true, SensitiveMediaDetection::All));
    assert!(!skip_sensitive_detection(Uploader::Local, false, SensitiveMediaDetection::All));
    assert!(skip_sensitive_detection(Uploader::Local, false, SensitiveMediaDetection::Off));
    assert!(skip_sensitive_detection(Uploader::Remote, false, SensitiveMediaDetection::Local));
    assert!(!skip_sensitive_detection(Uploader::Local, false, SensitiveMediaDetection::Local));
    assert!(skip_sensitive_detection(Uploader::Local, false, SensitiveMediaDetection::Remote));
    assert!(!skip_sensitive_detection(Uploader::Remote, false, SensitiveMediaDetection::Remote));
}

#[test]
fn thresholds_in_tenths() {
    assert_eq!(sensitive_threshold_tenths(SensitiveMediaDetectionSensitivity::VeryHigh), 1);
    assert_eq!(sensitive_threshold_tenths(SensitiveMediaDetectionSensitivity::High), 3);
    assert_eq!(sensitive_threshold_tenths(SensitiveMediaDetectionSensitivity::Medium), 5);
    assert_eq!(sensitive_threshold_tenths(SensitiveMediaDetectionSensitivity::Low), 7);
    assert_eq!(sensitive_threshold_tenths(SensitiveMediaDetectionSensitivity::VeryLow), 9);
}

#[test]
fn file_checks() {
    assert_eq!(
        check_file(Uploader::Local, Some(1), 2 * 1024 * 1024, "a.png", None),
        Err(RegisterPreflightError::FileSizeLimitOver)
    );
    assert_eq!(
        check_file(Uploader::Remote, None, 2 * 1024 * 1024, "a.png", Some(".png")),
        Ok("a.png".to_owned())
    );
    assert_eq!(
        check_file(Uploader::System, None, 1, "a", Some(&".".repeat(51))),
        Err(RegisterPreflightError::ExtTooLarge)
    );
    assert_eq!(
        check_file(Uploader::System, None, 1, "a", Some("png")),
        Err(RegisterPreflightError::BadExt)
    );
    assert_eq!(
        check_file(Uploader::System, None, 1, "a/b", Some(".png")),
        Ok("untitled.png".to_owned())
    );
    assert_eq!(
        check_file(Uploader::Local, Some(i64::MAX), i64::MAX, "a", Some(".png")),
        Ok("a.png".to_owned())
    );
}

#[test]
fn storage_checks() {
    assert_eq!(
        check_storage(Uploader::Local, false, 1024 * 1024, Some(1), 1, false, false),
        Err(RegisterPreflightError::NoFreeSpace)
    );
    assert_eq!(check_storage(Uploader::Local, false, 0, Some(1), 1, false, false), Ok(()));
    assert_eq!(check_storage(Uploader::Local, true, 1024 * 1024, Some(1), 1, false, false), Ok(()));
    assert_eq!(
        check_storage(Uploader::System, false, 0, None, 1, true, false),
        Err(RegisterPreflightError::FolderNotFound)
    );
    assert_eq!(check_storage(Uploader::System, false, 0, None, 1, true, true), Ok(()));
}

#[test]
fn sensitivity_of_new_files() {
    let hosts = vec!["silenced.example".to_owned()];
    assert!(!file_marked_sensitive(false, None, Some(None), &hosts, false, false, false));
    assert!(file_marked_sensitive(true, None, None, &hosts, false, false, false));
    assert!(file_marked_sensitive(false, None, Some(Some("silenced.example")), &hosts, false, false, false));
    let p = SensitivityProfile { always_mark_nsfw: false, auto_sensitive: true };
    assert!(file_marked_sensitive(false, Some(p), Some(None), &hosts, true, false, false));
    assert!(!file_marked_sensitive(false, Some(p), Some(None), &hosts, false, false, false));
    assert!(file_marked_sensitive(false, None, Some(None), &hosts, true, true, false));
    assert!(file_marked_sensitive(false, None, Some(None), &hosts, false, false, true));
}

#[test]
fn new_file_columns() {
    assert_eq!(
        initial_properties(0, 5),
        FileProperties { width: None, height: Some(5), orientation: None }
    );
    let (url, thumb) = stored_file_urls("https://local.example/files/", "key", Some("thumb-key"));
    assert_eq!(url, "https://local.example/files/key");
    assert_eq!(thumb, Some("https://local.example/files/thumb-key".to_owned()));
    assert_eq!(size_column(5_000_000_000), i32::MAX);
    assert_eq!(size_column(42), 42);
}

#[test]
fn packed_file_fields() {
    let ids = yojo_backend::id_service::IdService::new("aid");
    let id = ids.gen(Some(1_700_000_000_000));
    let mut f = file(FileProperties { width: Some(1), height: Some(2), orientation: Some(8) });
    f.id = id.clone();
    f.size = 10;
    f.size_long = 0;
    f.folder_id = Some("folder".to_owned());
    f.user_id = Some("owner".to_owned());
    let c = config();
    let mine = yojo_backend::drive::pack_fields(&c, &ids, &f, true, false, false).unwrap();
    assert_eq!(mine.created_at, 1_700_000_000_000);
    assert_eq!(mine.size, 10);
    assert_eq!(mine.properties, FileProperties { width: Some(1), height: Some(2), orientation: Some(8) });
    assert!(!mine.with_folder);
    assert_eq!(mine.user_id, None);
    let theirs = yojo_backend::drive::pack_fields(&c, &ids, &f, false, true, true).unwrap();
    assert_eq!(theirs.properties, FileProperties { width: Some(2), height: Some(1), orientation: None });
    assert!(theirs.with_folder);
    assert_eq!(theirs.user_id, Some("owner".to_owned()));
    assert_eq!(theirs.thumbnail_url, Some("https://local.example/files/abc".to_owned()));
}

#[test]
fn correcting_a_name_twice_changes_nothing_more() {
    for (name, ext) in [("photo", Some("png")), ("photo.jpg", Some(".png")), ("a.tar", Some("zip")), ("x", None), ("y.bin", None)] {
        let once = correct_filename(name, ext);
        assert_eq!(correct_filename(&once, ext), once);
    }
    assert_eq!(correct_filename("photo", Some("png")), "photo.png");
}
