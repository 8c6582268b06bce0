use clippy_core::storage_adapter::{
    classify, region_or_default, ConfigBlob, ConfigError, Environment, KeyClass, StorageBackend, StorageConfig,
    StorageManager, StorageStats, DEFAULT_RETRY_ATTEMPTS, DEFAULT_TIMEOUT_SECONDS,
};
use clippy_core::{get_storage_backend_types, get_storage_config, hide_sensitive_fields};

fn empty_env() -> Environment {
    Environment {
        storage_config: ConfigBlob::Unset,
        aws_s3_bucket: None,
        aws_region: None,
        aws_access_key_id: None,
        aws_secret_access_key: None,
        aws_endpoint: None,
        minio_bucket: None,
        minio_endpoint: None,
        minio_access_key: None,
        minio_secret_key: None,
        minio_region: None,
    }
}

fn text(s: &str) -> Option<String> {
    Some(s.to_string())
}

fn s3() -> StorageBackend {
    StorageBackend::S3 {
        bucket: "b".to_string(),
        region: "r".to_string(),
        access_key_id: "id".to_string(),
        secret_access_key: "SECRET".to_string(),
        endpoint: text("https://e"),
    }
}

fn is_default(config: &StorageConfig) -> bool {
    matches!(&config.backend, StorageBackend::FileSystem { root_path } if root_path == "./clippy_sync_data")
        && config.retry_attempts == 3
        && config.timeout_seconds == 30
}

#[test]
fn default_configuration_is_a_local_directory() {
    assert_eq!(DEFAULT_RETRY_ATTEMPTS, 3);
    assert_eq!(DEFAULT_TIMEOUT_SECONDS, 30);
    assert!(is_default(&StorageConfig::default()));
}

#[test]
fn empty_environment_asks_for_the_default() {
    assert!(is_default(&StorageConfig::from_env(empty_env()).unwrap()));
}

#[test]
fn whole_configuration_in_the_environment_comes_first() {
    let mut env = empty_env();
    env.storage_config = ConfigBlob::Parsed(StorageConfig {
        backend: StorageBackend::AzBlob {
            container: "c".to_string(),
            account_name: "n".to_string(),
            account_key: "k".to_string(),
        },
        retry_attempts: 9,
        timeout_seconds: 8,
    });
    env.aws_s3_bucket = text("ignored");
    env.minio_bucket = text("ignored");
    let config = StorageConfig::from_env(env).unwrap();
    assert_eq!(config.retry_attempts, 9);
    assert_eq!(config.timeout_seconds, 8);
    assert!(matches!(config.backend, StorageBackend::AzBlob { .. }));
}

#[test]
fn configuration_that_does_not_parse_is_an_error() {
    let mut env = empty_env();
    env.storage_config = ConfigBlob::Invalid;
    env.aws_s3_bucket = text("bucket");
    env.aws_access_key_id = text("id");
    env.aws_secret_access_key = text("key");
    assert_eq!(StorageConfig::from_env(env).err(), Some(ConfigError::InvalidJson));
}

#[test]
fn aws_bucket_asks_for_s3() {
    let mut env = empty_env();
    env.aws_s3_bucket = text("bucket");
    env.aws_access_key_id = text("id");
    env.aws_secret_access_key = text("key");
    env.minio_bucket = text("ignored");
    let config = StorageConfig::from_env(env).unwrap();
    assert_eq!(config.retry_attempts, 3);
    assert_eq!(config.timeout_seconds, 30);
    match config.backend {
        StorageBackend::S3 { bucket, region, access_key_id, secret_access_key, endpoint } => {
            assert_eq!(bucket, "bucket");
            assert_eq!(region, "us-east-1");
            assert_eq!(access_key_id, "id");
            assert_eq!(secret_access_key, "key");
            assert_eq!(endpoint, None);
        }
        _ => panic!("not S3"),
    }
}

#[test]
fn aws_region_and_endpoint_are_taken_over() {
    let mut env = empty_env();
    env.aws_s3_bucket = text("bucket");
    env.aws_region = text("eu-west-1");
    env.aws_access_key_id = text("id");
    env.aws_secret_access_key = text("key");
    env.aws_endpoint = text("https://s3.example");
    match StorageConfig::from_env(env).unwrap().backend {
        StorageBackend::S3 { region, endpoint, .. } => {
            assert_eq!(region, "eu-west-1");
            assert_eq!(endpoint, text("https://s3.example"));
        }
        _ => panic!("not S3"),
    }
}

#[test]
fn aws_bucket_without_credentials_is_an_error() {
    let mut env = empty_env();
    env.aws_s3_bucket = text("bucket");
    env.aws_secret_access_key = text("key");
    assert_eq!(StorageConfig::from_env(env).err(), Some(ConfigError::MissingAwsAccessKeyId));
    let mut env = empty_env();
    env.aws_s3_bucket = text("bucket");
    assert_eq!(StorageConfig::from_env(env).err(), Some(ConfigError::MissingAwsAccessKeyId));
    let mut env = empty_env();
    env.aws_s3_bucket = text("bucket");
    env.aws_access_key_id = text("id");
    assert_eq!(StorageConfig::from_env(env).err(), Some(ConfigError::MissingAwsSecretAccessKey));
}

#[test]
fn minio_bucket_asks_for_an_s3_compatible_store() {
    let mut env = empty_env();
    env.minio_bucket = text("bucket");
    env.minio_endpoint = text("http://localhost:9000");
    env.minio_access_key = text("id");
    env.minio_secret_key = text("key");
    env.aws_access_key_id = text("unused");
    match StorageConfig::from_env(env).unwrap().backend {
        StorageBackend::S3Compatible {
            bucket,
            endpoint,
            access_key_id,
            secret_access_key,
            region,
        } => {
            assert_eq!(bucket, "bucket");
            assert_eq!(endpoint, "http://localhost:9000");
            assert_eq!(access_key_id, "id");
            assert_eq!(secret_access_key, "key");
            assert_eq!(region, None);
        }
        _ => panic!("not S3Compatible"),
    }
    let mut env = empty_env();
    env.minio_bucket = text("bucket");
    env.minio_endpoint = text("e");
    env.minio_access_key = text("id");
    env.minio_secret_key = text("key");
    env.minio_region = text("moon");
    match StorageConfig::from_env(env).unwrap().backend {
        StorageBackend::S3Compatible { region, .. } => assert_eq!(region, text("moon")),
        _ => panic!("not S3Compatible"),
    }
}

#[test]
fn minio_bucket_without_its_settings_is_an_error() {
    let mut env = empty_env();
    env.minio_bucket = text("bucket");
    assert_eq!(StorageConfig::from_env(env).err(), Some(ConfigError::MissingMinioEndpoint));
    let mut env = empty_env();
    env.minio_bucket = text("bucket");
    env.minio_endpoint = text("e");
    env.minio_secret_key = text("k");
    assert_eq!(StorageConfig::from_env(env).err(), Some(ConfigError::MissingMinioAccessKey));
    let mut env = empty_env();
    env.minio_bucket = text("bucket");
    env.minio_endpoint = text("e");
    env.minio_access_key = text("id");
    assert_eq!(StorageConfig::from_env(env).err(), Some(ConfigError::MissingMinioSecretKey));
}

#[test]
fn settings_without_a_bucket_ask_for_the_default() {
    let mut env = empty_env();
    env.aws_access_key_id = text("id");
    env.aws_secret_access_key = text("key");
    env.minio_endpoint = text("e");
    assert!(is_default(&StorageConfig::from_env(env).unwrap()));
}

#[test]
fn secrets_are_shown_as_stars() {
    match s3().redacted() {
        StorageBackend::S3 { bucket, region, access_key_id, secret_access_key, endpoint } => {
            assert_eq!(bucket, "b");
            assert_eq!(region, "r");
            assert_eq!(access_key_id, "id");
            assert_eq!(secret_access_key, "***");
            assert_eq!(endpoint, text("https://e"));
        }
        _ => panic!("kind changed"),
    }
    let oss = StorageBackend::Oss {
        bucket: "b".to_string(),
        endpoint: "e".to_string(),
        access_key_id: "id".to_string(),
        access_key_secret: "SECRET".to_string(),
    };
    assert!(matches!(oss.redacted(), StorageBackend::Oss { access_key_secret, access_key_id, .. }
        if access_key_secret == "***" && access_key_id == "id"));
    let compatible = StorageBackend::S3Compatible {
        bucket: "b".to_string(),
        endpoint: "e".to_string(),
        access_key_id: "id".to_string(),
        secret_access_key: "SECRET".to_string(),
        region: None,
    };
    assert!(matches!(compatible.redacted(), StorageBackend::S3Compatible { secret_access_key, region, .. }
        if secret_access_key == "***" && region.is_none()));
    let cos = StorageBackend::Cos {
        bucket: "b".to_string(),
        endpoint: "e".to_string(),
        secret_id: "sid".to_string(),
        secret_key: "SECRET".to_string(),
    };
    assert!(matches!(cos.redacted(), StorageBackend::Cos { secret_key, secret_id, .. }
        if secret_key == "***" && secret_id == "sid"));
    let az = StorageBackend::AzBlob {
        container: "c".to_string(),
        account_name: "n".to_string(),
        account_key: "SECRET".to_string(),
    };
    assert!(matches!(az.redacted(), StorageBackend::AzBlob { account_key, account_name, .. }
        if account_key == "***" && account_name == "n"));
    let fs = StorageBackend::FileSystem { root_path: "/data".to_string() };
    assert!(matches!(fs.redacted(), StorageBackend::FileSystem { root_path } if root_path == "/data"));
}

#[test]
fn hiding_changes_the_backend_in_place() {
    let mut backend = s3();
    hide_sensitive_fields(&mut backend);
    assert!(matches!(&backend, StorageBackend::S3 { secret_access_key, bucket, .. }
        if secret_access_key == "***" && bucket == "b"));
    hide_sensitive_fields(&mut backend);
    assert!(matches!(&backend, StorageBackend::S3 { secret_access_key, .. }
        if secret_access_key == "***"));
}

#[test]
fn shown_configuration_has_no_secret() {
    let shown = get_storage_config(Some(StorageConfig {
        backend: s3(),
        retry_attempts: 5,
        timeout_seconds: 6,
    }));
    assert_eq!(shown.retry_attempts, 5);
    assert_eq!(shown.timeout_seconds, 6);
    assert!(matches!(&shown.backend, StorageBackend::S3 { secret_access_key, .. }
        if secret_access_key == "***"));
    assert!(is_default(&get_storage_config(None)));
}

#[test]
fn kinds_of_store_have_their_names() {
    assert_eq!(
        get_storage_backend_types(),
        vec!["FileSystem", "S3", "S3Compatible", "Oss", "Cos", "AzBlob"]
    );
    assert_eq!(s3().kind_name(), "S3");
    assert_eq!(StorageBackend::FileSystem { root_path: "".to_string() }.kind_name(), "FileSystem");
    assert_eq!(StorageConfig::default().clone().backend.kind_name(), "FileSystem");
}

#[test]
fn store_is_valid_when_it_gives_the_probe_back() {
    let (path, content) = StorageConfig::validation_probe();
    assert_eq!(path, "test_clippy_connection.txt");
    assert_eq!(content, b"Clippy storage test".to_vec());
    assert_eq!(StorageConfig::validate(&content), Ok(()));
    assert_eq!(StorageConfig::validate(b"Clippy storage tesT"), Err(ConfigError::ContentMismatch));
    assert_eq!(StorageConfig::validate(b""), Err(ConfigError::ContentMismatch));
    assert_eq!(
        StorageConfig::validate(b"Clippy storage test\n"),
        Err(ConfigError::ContentMismatch)
    );
}

#[test]
fn directories_of_a_user_are_marked_by_placeholders() {
    let manager = StorageManager::new(StorageConfig::default());
    assert!(is_default(manager.config()));
    assert_eq!(
        manager.ensure_user_directories("u1"),
        vec!["u1/oplog//.keep", "u1/snapshots//.keep", "u1/data//.keep"]
    );
    assert_eq!(manager.cleanup_user_data("u1"), "u1/");
}

#[test]
fn keys_are_classed_by_their_directory() {
    assert_eq!(classify("u/oplog/x.json"), KeyClass::Oplog);
    assert_eq!(classify("u/snapshots/latest.json"), KeyClass::Snapshot);
    assert_eq!(classify("u/data/blob"), KeyClass::Data);
    assert_eq!(classify("u/other/x"), KeyClass::Other);
    assert_eq!(classify("u/oplog"), KeyClass::Other);
    assert_eq!(classify("u/data/oplog/x/snapshots/y"), KeyClass::Oplog);
    assert_eq!(classify("u/data/snapshots/y"), KeyClass::Snapshot);
    assert_eq!(classify("u/data/oplog"), KeyClass::Data);
    assert_eq!(classify("u/snapshots/x/oplog/y"), KeyClass::Oplog);
    assert_eq!(classify(""), KeyClass::Other);
}

#[test]
fn statistics_count_and_weigh_by_class() {
    let manager = StorageManager::new(StorageConfig::default());
    let objects = vec![
        ("u/oplog/a.json".to_string(), 10u64),
        ("u/oplog/b.json".to_string(), 20),
        ("u/snapshots/latest.json".to_string(), 3),
        ("u/data/blob".to_string(), 1000),
        ("u/stray".to_string(), 7),
        ("u/oplog//.keep".to_string(), 0),
    ];
    assert_eq!(
        manager.get_storage_stats(&objects),
        Some(StorageStats {
            total_files: 6,
            total_size: 1040,
            oplog_files: 3,
            oplog_size: 30,
            snapshot_files: 1,
            snapshot_size: 3,
            data_files: 1,
            data_size: 1000,
        })
    );
    assert_eq!(manager.get_storage_stats(&Vec::new()), Some(StorageStats::default()));
    assert_eq!(StorageStats::default().total_files, 0);
}

#[test]
fn statistics_that_do_not_fit_are_none() {
    let manager = StorageManager::new(StorageConfig::default());
    let fits = vec![("u/oplog/a".to_string(), u64::MAX - 1), ("u/x".to_string(), 1)];
    assert_eq!(manager.get_storage_stats(&fits).unwrap().total_size, u64::MAX);
    let over = vec![("u/oplog/a".to_string(), u64::MAX), ("u/x".to_string(), 1)];
    assert_eq!(manager.get_storage_stats(&over), None);
}

#[test]
fn region_defaults_to_us_east_1() {
    assert_eq!(region_or_default(&None), "us-east-1");
    assert_eq!(region_or_default(&Some("eu-central-1".to_string())), "eu-central-1");
    assert_eq!(region_or_default(&Some(String::new())), "");
}
