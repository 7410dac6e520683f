use minidb::config::Config;
use std::path::PathBuf;

#[test]
fn test_root_dir_path() {
    let config = Config::new("/mydb".to_string());

    assert_eq!(PathBuf::from(config.root_dir_path()), PathBuf::from("/mydb"));
}

#[test]
fn test_base_dir_path() {
    let config = Config::new("/mydb".to_string());

    assert_eq!(PathBuf::from(config.base_dir_path()), PathBuf::from("/mydb/base"));
}

#[test]
fn test_global_dir_path() {
    let config = Config::new("/mydb".to_string());

    assert_eq!(PathBuf::from(config.global_dir_path()), PathBuf::from("/mydb/global"));
}

#[test]
fn test_oid_file_path() {
    let config = Config::new("/mydb".to_string());

    assert_eq!(PathBuf::from(config.oid_file_path()), PathBuf::from("/mydb/global/oid"));
}

#[test]
fn test_system_catalog_dir_path() {
    let config = Config::new("/mydb".to_string());

    assert_eq!(
        PathBuf::from(config.system_catalog_dir_path("mini_database")),
        PathBuf::from("/mydb/global/mini_database")
    );
}

#[test]
fn test_system_catalog_file_path() {
    let config = Config::new("/mydb".to_string());

    assert_eq!(
        PathBuf::from(config.system_catalog_file_path("mini_database")),
        PathBuf::from("/mydb/global/mini_database/data")
    );
}

#[test]
fn test_database_dir_path() {
    let config = Config::new("/mydb".to_string());

    assert_eq!(PathBuf::from(config.database_dir_path(10001)), PathBuf::from("/mydb/base/10001"));
}

#[test]
fn test_table_dir_path() {
    let config = Config::new("/mydb".to_string());

    assert_eq!(
        PathBuf::from(config.table_dir_path(10001, 10002)),
        PathBuf::from("/mydb/base/10001/10002")
    );
}

#[test]
fn test_data_file_path() {
    let config = Config::new("/mydb".to_string());

    assert_eq!(
        PathBuf::from(config.data_file_path(10001, 10002)),
        PathBuf::from("/mydb/base/10001/10002/data")
    );
}

#[test]
fn paths_are_exact_strings() {
    let config = Config::new("/mydb".to_string());
    assert_eq!(config.data_file_path(10000, 10001), "/mydb/base/10000/10001/data");
    assert_eq!(config.oid_file_path(), "/mydb/global/oid");
}

#[test]
fn root_with_trailing_slash_gets_no_second_one() {
    let config = Config::new("/mydb/".to_string());
    assert_eq!(config.base_dir_path(), "/mydb/base");
    assert_eq!(config.system_catalog_file_path("mini_class"), "/mydb/global/mini_class/data");
}

#[test]
fn absolute_catalog_name_stands_for_itself() {
    let config = Config::new("/mydb".to_string());
    assert_eq!(config.system_catalog_dir_path("/elsewhere"), "/elsewhere");
}

#[test]
fn empty_root_gives_relative_paths() {
    let config = Config::new(String::new());
    assert_eq!(config.base_dir_path(), "base");
    assert_eq!(config.oid_file_path(), "global/oid");
}
