use webwallpaper::server::PathStyle;
use webwallpaper::config::{
    instance_index_from_file_name, is_instance_file_name, join_path, Config,
};

/// The configuration in a fixed temporary directory (the lookup of the
/// system's temporary directory is left to the program).
fn default_config() -> Config {
    Config::in_temp_dir("/tmp", PathStyle::Unix)
}

#[test]
fn test_config_default() {
    let config = default_config();
    assert!(config.instance_dir.contains("wewa"));
}

#[test]
fn test_instance_file_path() {
    let config = default_config();
    let path = config.instance_file_path(0);
    assert!(path.contains("display_0.json"));
}

#[test]
fn instance_paths_exact() {
    let config = Config::in_temp_dir("/tmp", PathStyle::Unix);
    assert_eq!(config.instance_dir, "/tmp/wewa");
    assert_eq!(config.instance_file_path(12), "/tmp/wewa/display_12.json");
    assert_eq!(Config::in_temp_dir("/tmp/", PathStyle::Unix).instance_dir, "/tmp/wewa");
    assert_eq!(Config::in_temp_dir("", PathStyle::Unix).instance_dir, "wewa");
    assert_eq!(join_path("/a", "/b", PathStyle::Unix), "/b");
}

#[test]
fn instance_file_names() {
    assert!(is_instance_file_name("display_3.json"));
    assert!(!is_instance_file_name("display_3.txt"));
    assert!(!is_instance_file_name("other.json"));
    assert_eq!(instance_index_from_file_name("display_3.json"), Some(3));
    assert_eq!(instance_index_from_file_name("display_x.json"), None);
    assert_eq!(instance_index_from_file_name("display_7"), Some(7));
    assert_eq!(instance_index_from_file_name("display_1.2.json"), None);
    assert_eq!(instance_index_from_file_name("shader_1.json"), None);
    for i in [0u32, 9, 10, 4294967295] {
        let config = Config::in_temp_dir("/var/tmp", PathStyle::Unix);
        let path = config.instance_file_path(i);
        let name = path.rsplit('/').next().unwrap();
        assert!(is_instance_file_name(name));
        assert_eq!(instance_index_from_file_name(name), Some(i));
    }
}

#[test]
fn instance_paths_on_windows() {
    let w = PathStyle::Windows;
    let config = Config::in_temp_dir("C:\\Users\\u\\AppData\\Local\\Temp\\", w);
    assert_eq!(config.instance_dir, "C:\\Users\\u\\AppData\\Local\\Temp\\wewa");
    assert_eq!(
        config.instance_file_path(0),
        "C:\\Users\\u\\AppData\\Local\\Temp\\wewa\\display_0.json"
    );
    assert_eq!(Config::in_temp_dir("C:\\Temp", w).instance_dir, "C:\\Temp\\wewa");
    assert_eq!(Config::in_temp_dir("C:/Temp/", w).instance_dir, "C:/Temp/wewa");
    assert_eq!(Config::in_temp_dir("C:", w).instance_dir, "C:wewa");
    assert_eq!(join_path("C:\\a", "\\b", w), "C:\\b");
    assert_eq!(join_path("C:\\a", "D:\\b", w), "D:\\b");
    assert_eq!(join_path("C:\\a", "\\\\srv\\share", w), "\\\\srv\\share");
    assert_eq!(join_path("a", "b", w), "a\\b");
    // on Unix a backslash is an ordinary character
    assert_eq!(join_path("a\\", "b", PathStyle::Unix), "a\\/b");
}
