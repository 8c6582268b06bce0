//! The configuration of the remote store, and what is kept there for a user.
//!
//! The store itself is reached by the caller. This module decides and
//! counts: which configuration the environment asks for, which fields of a
//! configuration are secret, which keys make a user's directories, and how
//! much a user's objects weigh.

use vstd::prelude::*;
use vstd::string::*;
use vstd::utf8::encode_utf8;
use crate::text::{bytes_eq, occurs_in, str_contains};

verus! {

/// Where the shared objects are kept.
#[derive(Debug)]
#[allow(inconsistent_fields)]
pub enum StorageBackend {
    /// A directory of the local file system.
    FileSystem { root_path: String },
    /// Amazon S3.
    S3 {
        bucket: String,
        region: String,
        access_key_id: String,
        secret_access_key: String,
        endpoint: Option<String>,
    },
    /// Alibaba Cloud OSS.
    Oss { bucket: String, endpoint: String, access_key_id: String, access_key_secret: String },
    /// A store that speaks the S3 protocol.
    S3Compatible {
        bucket: String,
        endpoint: String,
        access_key_id: String,
        secret_access_key: String,
        region: Option<String>,
    },
    /// Tencent Cloud COS.
    Cos { bucket: String, endpoint: String, secret_id: String, secret_key: String },
    /// Azure Blob Storage.
    AzBlob { container: String, account_name: String, account_key: String },
}

/// What a `StorageBackend` holds, as mathematical values.
#[allow(inconsistent_fields)]
pub enum BackendView {
    FileSystem { root_path: Seq<char> },
    S3 {
        bucket: Seq<char>,
        region: Seq<char>,
        access_key_id: Seq<char>,
        secret_access_key: Seq<char>,
        endpoint: Option<Seq<char>>,
    },
    Oss {
        bucket: Seq<char>,
        endpoint: Seq<char>,
        access_key_id: Seq<char>,
        access_key_secret: Seq<char>,
    },
    S3Compatible {
        bucket: Seq<char>,
        endpoint: Seq<char>,
        access_key_id: Seq<char>,
        secret_access_key: Seq<char>,
        region: Option<Seq<char>>,
    },
    Cos { bucket: Seq<char>, endpoint: Seq<char>, secret_id: Seq<char>, secret_key: Seq<char> },
    AzBlob { container: Seq<char>, account_name: Seq<char>, account_key: Seq<char> },
}

impl View for StorageBackend {
    type V = BackendView;

    open spec fn view(&self) -> BackendView {
        match self {
            StorageBackend::FileSystem { root_path } => BackendView::FileSystem {
                root_path: root_path@,
            },
            StorageBackend::S3 { bucket, region, access_key_id, secret_access_key, endpoint } =>
                BackendView::S3 {
                bucket: bucket@,
                region: region@,
                access_key_id: access_key_id@,
                secret_access_key: secret_access_key@,
                endpoint: endpoint.deep_view(),
            },
            StorageBackend::Oss { bucket, endpoint, access_key_id, access_key_secret } =>
                BackendView::Oss {
                bucket: bucket@,
                endpoint: endpoint@,
                access_key_id: access_key_id@,
                access_key_secret: access_key_secret@,
            },
            StorageBackend::S3Compatible {
                bucket,
                endpoint,
                access_key_id,
                secret_access_key,
                region,
            } => BackendView::S3Compatible {
                bucket: bucket@,
                endpoint: endpoint@,
                access_key_id: access_key_id@,
                secret_access_key: secret_access_key@,
                region: region.deep_view(),
            },
            StorageBackend::Cos { bucket, endpoint, secret_id, secret_key } => BackendView::Cos {
                bucket: bucket@,
                endpoint: endpoint@,
                secret_id: secret_id@,
                secret_key: secret_key@,
            },
            StorageBackend::AzBlob { container, account_name, account_key } =>
                BackendView::AzBlob {
                container: container@,
                account_name: account_name@,
                account_key: account_key@,
            },
        }
    }
}

fn clone_opt(s: &Option<String>) -> (r: Option<String>)
    ensures
        r.deep_view() == s.deep_view(),
{
    match s {
        Some(text) => Some(text.clone()),
        None => None,
    }
}

impl Clone for StorageBackend {
    fn clone(&self) -> (r: Self)
        ensures
            r@ == self@,
    {
        match self {
            StorageBackend::FileSystem { root_path } => StorageBackend::FileSystem {
                root_path: root_path.clone(),
            },
            StorageBackend::S3 { bucket, region, access_key_id, secret_access_key, endpoint } =>
                StorageBackend::S3 {
                bucket: bucket.clone(),
                region: region.clone(),
                access_key_id: access_key_id.clone(),
                secret_access_key: secret_access_key.clone(),
                endpoint: clone_opt(endpoint),
            },
            StorageBackend::Oss { bucket, endpoint, access_key_id, access_key_secret } =>
                StorageBackend::Oss {
                bucket: bucket.clone(),
                endpoint: endpoint.clone(),
                access_key_id: access_key_id.clone(),
                access_key_secret: access_key_secret.clone(),
            },
            StorageBackend::S3Compatible {
                bucket,
                endpoint,
                access_key_id,
                secret_access_key,
                region,
            } => StorageBackend::S3Compatible {
                bucket: bucket.clone(),
                endpoint: endpoint.clone(),
                access_key_id: access_key_id.clone(),
                secret_access_key: secret_access_key.clone(),
                region: clone_opt(region),
            },
            StorageBackend::Cos { bucket, endpoint, secret_id, secret_key } => StorageBackend::Cos {
                bucket: bucket.clone(),
                endpoint: endpoint.clone(),
                secret_id: secret_id.clone(),
                secret_key: secret_key.clone(),
            },
            StorageBackend::AzBlob { container, account_name, account_key } =>
                StorageBackend::AzBlob {
                container: container.clone(),
                account_name: account_name.clone(),
                account_key: account_key.clone(),
            },
        }
    }
}

impl BackendView {
    /// `self` with every secret replaced by `***`.
    pub open spec fn redacted(self) -> BackendView {
        match self {
            BackendView::FileSystem { root_path } => self,
            BackendView::S3 { bucket, region, access_key_id, secret_access_key, endpoint } =>
                BackendView::S3 {
                bucket,
                region,
                access_key_id,
                secret_access_key: "***"@,
                endpoint,
            },
            BackendView::Oss { bucket, endpoint, access_key_id, access_key_secret } =>
                BackendView::Oss { bucket, endpoint, access_key_id, access_key_secret: "***"@ },
            BackendView::S3Compatible {
                bucket,
                endpoint,
                access_key_id,
                secret_access_key,
                region,
            } => BackendView::S3Compatible {
                bucket,
                endpoint,
                access_key_id,
                secret_access_key: "***"@,
                region,
            },
            BackendView::Cos { bucket, endpoint, secret_id, secret_key } => BackendView::Cos {
                bucket,
                endpoint,
                secret_id,
                secret_key: "***"@,
            },
            BackendView::AzBlob { container, account_name, account_key } => BackendView::AzBlob {
                container,
                account_name,
                account_key: "***"@,
            },
        }
    }

    /// The tag by which this kind of store is named in a configuration.
    pub open spec fn kind_name(self) -> Seq<char> {
        match self {
            BackendView::FileSystem { .. } => "FileSystem"@,
            BackendView::S3 { .. } => "S3"@,
            BackendView::Oss { .. } => "Oss"@,
            BackendView::S3Compatible { .. } => "S3Compatible"@,
            BackendView::Cos { .. } => "Cos"@,
            BackendView::AzBlob { .. } => "AzBlob"@,
        }
    }
}

impl StorageBackend {
    /// A copy of `self` in which every secret reads `***`.
    pub fn redacted(&self) -> (r: StorageBackend)
        ensures
            r@ == self@.redacted(),
    {
        match self {
            StorageBackend::FileSystem { root_path } => StorageBackend::FileSystem {
                root_path: root_path.clone(),
            },
            StorageBackend::S3 { bucket, region, access_key_id, secret_access_key, endpoint } =>
                StorageBackend::S3 {
                bucket: bucket.clone(),
                region: region.clone(),
                access_key_id: access_key_id.clone(),
                secret_access_key: "***".to_string(),
                endpoint: clone_opt(endpoint),
            },
            StorageBackend::Oss { bucket, endpoint, access_key_id, access_key_secret } =>
                StorageBackend::Oss {
                bucket: bucket.clone(),
                endpoint: endpoint.clone(),
                access_key_id: access_key_id.clone(),
                access_key_secret: "***".to_string(),
            },
            StorageBackend::S3Compatible {
                bucket,
                endpoint,
                access_key_id,
                secret_access_key,
                region,
            } => StorageBackend::S3Compatible {
                bucket: bucket.clone(),
                endpoint: endpoint.clone(),
                access_key_id: access_key_id.clone(),
                secret_access_key: "***".to_string(),
                region: clone_opt(region),
            },
            StorageBackend::Cos { bucket, endpoint, secret_id, secret_key } => StorageBackend::Cos {
                bucket: bucket.clone(),
                endpoint: endpoint.clone(),
                secret_id: secret_id.clone(),
                secret_key: "***".to_string(),
            },
            StorageBackend::AzBlob { container, account_name, account_key } =>
                StorageBackend::AzBlob {
                container: container.clone(),
                account_name: account_name.clone(),
                account_key: "***".to_string(),
            },
        }
    }

    /// The tag by which this kind of store is named in a configuration.
    pub fn kind_name(&self) -> (name: String)
        ensures
            name@ == self@.kind_name(),
    {
        match self {
            StorageBackend::FileSystem { .. } => "FileSystem".to_string(),
            StorageBackend::S3 { .. } => "S3".to_string(),
            StorageBackend::Oss { .. } => "Oss".to_string(),
            StorageBackend::S3Compatible { .. } => "S3Compatible".to_string(),
            StorageBackend::Cos { .. } => "Cos".to_string(),
            StorageBackend::AzBlob { .. } => "AzBlob".to_string(),
        }
    }
}

/// How the remote store is reached.
#[derive(Debug)]
pub struct StorageConfig {
    pub backend: StorageBackend,
    pub retry_attempts: usize,
    pub timeout_seconds: u64,
}

/// What a `StorageConfig` holds, as mathematical values.
pub struct ConfigView {
    pub backend: BackendView,
    pub retry_attempts: usize,
    pub timeout_seconds: u64,
}

impl View for StorageConfig {
    type V = ConfigView;

    open spec fn view(&self) -> ConfigView {
        ConfigView {
            backend: self.backend@,
            retry_attempts: self.retry_attempts,
            timeout_seconds: self.timeout_seconds,
        }
    }
}

impl Clone for StorageConfig {
    fn clone(&self) -> (r: Self)
        ensures
            r@ == self@,
    {
        StorageConfig {
            backend: self.backend.clone(),
            retry_attempts: self.retry_attempts,
            timeout_seconds: self.timeout_seconds,
        }
    }
}

/// The number of attempts of a remote operation, unless the configuration says otherwise.
pub const DEFAULT_RETRY_ATTEMPTS: usize = 3;

/// The seconds after which a remote operation is given up, unless the configuration says otherwise.
pub const DEFAULT_TIMEOUT_SECONDS: u64 = 30;

impl ConfigView {
    /// The configuration that is used where none is given: a local
    /// directory, three attempts, half a minute.
    pub open spec fn default() -> ConfigView {
        ConfigView::with_backend(BackendView::FileSystem { root_path: "./clippy_sync_data"@ })
    }

    /// The default configuration, on another store.
    pub open spec fn with_backend(backend: BackendView) -> ConfigView {
        ConfigView {
            backend,
            retry_attempts: DEFAULT_RETRY_ATTEMPTS,
            timeout_seconds: DEFAULT_TIMEOUT_SECONDS,
        }
    }
}

impl Default for StorageConfig {
    fn default() -> (config: StorageConfig)
        ensures
            config@ == ConfigView::default(),
    {
        StorageConfig {
            backend: StorageBackend::FileSystem { root_path: "./clippy_sync_data".to_string() },
            retry_attempts: DEFAULT_RETRY_ATTEMPTS,
            timeout_seconds: DEFAULT_TIMEOUT_SECONDS,
        }
    }
}

/// Why no configuration could be had, or why one does not work.
#[derive(Clone, Copy, Debug, PartialEq, Eq, Structural)]
pub enum ConfigError {
    /// `CLIPPY_STORAGE_CONFIG` is set and is not a configuration.
    InvalidJson,
    /// `AWS_S3_BUCKET` is set and `AWS_ACCESS_KEY_ID` is not.
    MissingAwsAccessKeyId,
    /// `AWS_S3_BUCKET` is set and `AWS_SECRET_ACCESS_KEY` is not.
    MissingAwsSecretAccessKey,
    /// `MINIO_BUCKET` is set and `MINIO_ENDPOINT` is not.
    MissingMinioEndpoint,
    /// `MINIO_BUCKET` is set and `MINIO_ACCESS_KEY` is not.
    MissingMinioAccessKey,
    /// `MINIO_BUCKET` is set and `MINIO_SECRET_KEY` is not.
    MissingMinioSecretKey,
    /// The store gave back other bytes than were written to it.
    ContentMismatch,
}

/// What the variable `CLIPPY_STORAGE_CONFIG` holds.
#[derive(Debug)]
pub enum ConfigBlob {
    /// The variable is not set.
    Unset,
    /// The variable is set to something that is not a configuration.
    Invalid,
    /// The variable is set to this configuration.
    Parsed(StorageConfig),
}

/// The environment variables that can say which store to use.
#[derive(Debug)]
pub struct Environment {
    pub storage_config: ConfigBlob,
    pub aws_s3_bucket: Option<String>,
    pub aws_region: Option<String>,
    pub aws_access_key_id: Option<String>,
    pub aws_secret_access_key: Option<String>,
    pub aws_endpoint: Option<String>,
    pub minio_bucket: Option<String>,
    pub minio_endpoint: Option<String>,
    pub minio_access_key: Option<String>,
    pub minio_secret_key: Option<String>,
    pub minio_region: Option<String>,
}

/// The configuration that `env` asks for. A whole configuration in
/// `CLIPPY_STORAGE_CONFIG` comes first, then S3 by `AWS_S3_BUCKET`, then an
/// S3-compatible store by `MINIO_BUCKET`, then the default.
pub open spec fn env_config(env: Environment) -> Result<ConfigView, ConfigError> {
    match env.storage_config {
        ConfigBlob::Parsed(config) => Ok(config@),
        ConfigBlob::Invalid => Err(ConfigError::InvalidJson),
        ConfigBlob::Unset => if env.aws_s3_bucket is Some {
            if env.aws_access_key_id is None {
                Err(ConfigError::MissingAwsAccessKeyId)
            } else if env.aws_secret_access_key is None {
                Err(ConfigError::MissingAwsSecretAccessKey)
            } else {
                Ok(
                    ConfigView::with_backend(
                        BackendView::S3 {
                            bucket: env.aws_s3_bucket->0@,
                            region: match env.aws_region {
                                Some(region) => region@,
                                None => "us-east-1"@,
                            },
                            access_key_id: env.aws_access_key_id->0@,
                            secret_access_key: env.aws_secret_access_key->0@,
                            endpoint: env.aws_endpoint.deep_view(),
                        },
                    ),
                )
            }
        } else if env.minio_bucket is Some {
            if env.minio_endpoint is None {
                Err(ConfigError::MissingMinioEndpoint)
            } else if env.minio_access_key is None {
                Err(ConfigError::MissingMinioAccessKey)
            } else if env.minio_secret_key is None {
                Err(ConfigError::MissingMinioSecretKey)
            } else {
                Ok(
                    ConfigView::with_backend(
                        BackendView::S3Compatible {
                            bucket: env.minio_bucket->0@,
                            endpoint: env.minio_endpoint->0@,
                            access_key_id: env.minio_access_key->0@,
                            secret_access_key: env.minio_secret_key->0@,
                            region: env.minio_region.deep_view(),
                        },
                    ),
                )
            }
        } else {
            Ok(ConfigView::default())
        },
    }
}

/// The region of a store that speaks the S3 protocol, where none is configured.
pub open spec fn default_region() -> Seq<char> {
    "us-east-1"@
}

/// The region that is used with a store: the one that is configured, or
/// `us-east-1` where none is.
pub fn region_or_default(region: &Option<String>) -> (r: String)
    ensures
        r@ == match region {
            Some(name) => name@,
            None => default_region(),
        },
{
    match region {
        Some(name) => name.clone(),
        None => "us-east-1".to_string(),
    }
}

/// The path of the object that is written and read back to try a store out.
pub open spec fn probe_path() -> Seq<char> {
    "test_clippy_connection.txt"@
}

/// The text of the object that is written and read back to try a store out.
pub open spec fn probe_text() -> Seq<char> {
    "Clippy storage test"@
}

impl StorageConfig {
    /// The configuration that the environment asks for.
    pub fn from_env(env: Environment) -> (r: Result<StorageConfig, ConfigError>)
        ensures
            match r {
                Ok(config) => env_config(env) == Ok::<ConfigView, ConfigError>(config@),
                Err(e) => env_config(env) == Err::<ConfigView, ConfigError>(e),
            },
    {
        let Environment {
            storage_config,
            aws_s3_bucket,
            aws_region,
            aws_access_key_id,
            aws_secret_access_key,
            aws_endpoint,
            minio_bucket,
            minio_endpoint,
            minio_access_key,
            minio_secret_key,
            minio_region,
        } = env;
        match storage_config {
            ConfigBlob::Parsed(config) => {
                return Ok(config);
            },
            ConfigBlob::Invalid => {
                return Err(ConfigError::InvalidJson);
            },
            ConfigBlob::Unset => {},
        }
        if let Some(bucket) = aws_s3_bucket {
            let region = region_or_default(&aws_region);
            let access_key_id = match aws_access_key_id {
                Some(key) => key,
                None => {
                    return Err(ConfigError::MissingAwsAccessKeyId);
                },
            };
            let secret_access_key = match aws_secret_access_key {
                Some(key) => key,
                None => {
                    return Err(ConfigError::MissingAwsSecretAccessKey);
                },
            };
            return Ok(
                StorageConfig {
                    backend: StorageBackend::S3 {
                        bucket,
                        region,
                        access_key_id,
                        secret_access_key,
                        endpoint: aws_endpoint,
                    },
                    retry_attempts: DEFAULT_RETRY_ATTEMPTS,
                    timeout_seconds: DEFAULT_TIMEOUT_SECONDS,
                },
            );
        }
        if let Some(bucket) = minio_bucket {
            let endpoint = match minio_endpoint {
                Some(endpoint) => endpoint,
                None => {
                    return Err(ConfigError::MissingMinioEndpoint);
                },
            };
            let access_key_id = match minio_access_key {
                Some(key) => key,
                None => {
                    return Err(ConfigError::MissingMinioAccessKey);
                },
            };
            let secret_access_key = match minio_secret_key {
                Some(key) => key,
                None => {
                    return Err(ConfigError::MissingMinioSecretKey);
                },
            };
            return Ok(
                StorageConfig {
                    backend: StorageBackend::S3Compatible {
                        bucket,
                        endpoint,
                        access_key_id,
                        secret_access_key,
                        region: minio_region,
                    },
                    retry_attempts: DEFAULT_RETRY_ATTEMPTS,
                    timeout_seconds: DEFAULT_TIMEOUT_SECONDS,
                },
            );
        }
        Ok(StorageConfig::default())
    }

    /// A copy of `self` in which every secret reads `***`.
    pub fn redacted(&self) -> (r: StorageConfig)
        ensures
            r@.backend == self@.backend.redacted(),
            r@.retry_attempts == self@.retry_attempts,
            r@.timeout_seconds == self@.timeout_seconds,
    {
        StorageConfig {
            backend: self.backend.redacted(),
            retry_attempts: self.retry_attempts,
            timeout_seconds: self.timeout_seconds,
        }
    }

    /// The object that is written to a store to try it out: its path and its bytes.
    pub fn validation_probe() -> (probe: (String, Vec<u8>))
        ensures
            probe.0@ == probe_path(),
            probe.1@ == encode_utf8(probe_text()),
    {
        let text = "Clippy storage test";
        let mut content: Vec<u8> = Vec::new();
        content.extend_from_slice(text.as_bytes());
        assert(content@ =~= text.spec_bytes());
        ("test_clippy_connection.txt".to_string(), content)
    }

    /// Judges a store by what it gave back for the probe: it works
    /// exactly when these are the bytes that were written.
    pub fn validate(read_back: &[u8]) -> (r: Result<(), ConfigError>)
        ensures
            r is Ok <==> read_back@ == encode_utf8(probe_text()),
            r matches Err(e) ==> e == ConfigError::ContentMismatch,
    {
        if bytes_eq(read_back, "Clippy storage test".as_bytes()) {
            Ok(())
        } else {
            Err(ConfigError::ContentMismatch)
        }
    }
}

/// How much of a user is kept in the remote store.
#[derive(Clone, Copy, Debug, PartialEq, Eq, Structural)]
pub struct StorageStats {
    pub total_files: u64,
    pub total_size: u64,
    pub oplog_files: u64,
    pub oplog_size: u64,
    pub snapshot_files: u64,
    pub snapshot_size: u64,
    pub data_files: u64,
    pub data_size: u64,
}

impl Default for StorageStats {
    fn default() -> (stats: StorageStats)
        ensures
            stats == StorageStats::zero(),
    {
        StorageStats {
            total_files: 0,
            total_size: 0,
            oplog_files: 0,
            oplog_size: 0,
            snapshot_files: 0,
            snapshot_size: 0,
            data_files: 0,
            data_size: 0,
        }
    }
}

/// The part of a user's keys that an object belongs to.
#[derive(Clone, Copy, Debug, PartialEq, Eq, Structural)]
pub enum KeyClass {
    Oplog,
    Snapshot,
    Data,
    Other,
}

/// The part that the key `path` belongs to: the first of `/oplog/`,
/// `/snapshots/` and `/data/` that occurs in it.
pub open spec fn class_of(path: Seq<char>) -> KeyClass {
    if occurs_in(encode_utf8(path), encode_utf8("/oplog/"@)) {
        KeyClass::Oplog
    } else if occurs_in(encode_utf8(path), encode_utf8("/snapshots/"@)) {
        KeyClass::Snapshot
    } else if occurs_in(encode_utf8(path), encode_utf8("/data/"@)) {
        KeyClass::Data
    } else {
        KeyClass::Other
    }
}

/// The part that the key `path` belongs to.
pub fn classify(path: &str) -> (class: KeyClass)
    ensures
        class == class_of(path@),
{
    if str_contains(path, "/oplog/") {
        KeyClass::Oplog
    } else if str_contains(path, "/snapshots/") {
        KeyClass::Snapshot
    } else if str_contains(path, "/data/") {
        KeyClass::Data
    } else {
        KeyClass::Other
    }
}

/// The number of the first `n` objects that belong to `class`, any class if `class` is `None`.
pub open spec fn count_in(objects: Seq<(Seq<char>, u64)>, class: Option<KeyClass>, n: int) -> int
    decreases n,
{
    if n <= 0 {
        0
    } else {
        count_in(objects, class, n - 1) + if class is None || class == Some(
            class_of(objects[n - 1].0),
        ) {
            1int
        } else {
            0int
        }
    }
}

/// The bytes of the first `n` objects that belong to `class`, any class if `class` is `None`.
pub open spec fn bytes_in(objects: Seq<(Seq<char>, u64)>, class: Option<KeyClass>, n: int) -> int
    decreases n,
{
    if n <= 0 {
        0
    } else {
        bytes_in(objects, class, n - 1) + if class is None || class == Some(
            class_of(objects[n - 1].0),
        ) {
            objects[n - 1].1 as int
        } else {
            0int
        }
    }
}

/// Counts and weights never fall as more objects are taken in, and no
/// class counts or weighs more than all objects together.
pub proof fn lemma_counts_bounded(objects: Seq<(Seq<char>, u64)>, class: Option<KeyClass>, n: int)
    requires
        0 <= n <= objects.len(),
    ensures
        0 <= count_in(objects, class, n) <= count_in(objects, None, n) == n,
        0 <= bytes_in(objects, class, n) <= bytes_in(objects, None, n),
    decreases n,
{
    if n > 0 {
        lemma_counts_bounded(objects, class, n - 1);
    }
}

impl StorageStats {
    /// The statistics of no objects.
    pub open spec fn zero() -> StorageStats {
        StorageStats {
            total_files: 0,
            total_size: 0,
            oplog_files: 0,
            oplog_size: 0,
            snapshot_files: 0,
            snapshot_size: 0,
            data_files: 0,
            data_size: 0,
        }
    }

    /// `self` counts and weighs the first `n` of `objects`.
    pub open spec fn describes(self, objects: Seq<(Seq<char>, u64)>, n: int) -> bool {
        &&& self.total_files == count_in(objects, None, n)
        &&& self.total_size == bytes_in(objects, None, n)
        &&& self.oplog_files == count_in(objects, Some(KeyClass::Oplog), n)
        &&& self.oplog_size == bytes_in(objects, Some(KeyClass::Oplog), n)
        &&& self.snapshot_files == count_in(objects, Some(KeyClass::Snapshot), n)
        &&& self.snapshot_size == bytes_in(objects, Some(KeyClass::Snapshot), n)
        &&& self.data_files == count_in(objects, Some(KeyClass::Data), n)
        &&& self.data_size == bytes_in(objects, Some(KeyClass::Data), n)
    }
}

/// The keys and sizes of `objects`, as mathematical values.
pub open spec fn objects_view(objects: Seq<(String, u64)>) -> Seq<(Seq<char>, u64)> {
    Seq::new(objects.len(), |i: int| (objects[i].0@, objects[i].1))
}

/// What is done for a user in the remote store.
#[derive(Debug)]
pub struct StorageManager {
    config: StorageConfig,
}

impl StorageManager {
    /// The configuration that this manager works with.
    pub closed spec fn config_view(&self) -> ConfigView {
        self.config@
    }

    /// The manager of the store that `config` describes.
    pub fn new(config: StorageConfig) -> (manager: StorageManager)
        ensures
            manager.config_view() == config@,
    {
        StorageManager { config }
    }

    /// The configuration that this manager works with.
    pub fn config(&self) -> (config: &StorageConfig)
        ensures
            config@ == self.config_view(),
    {
        &self.config
    }

    /// The keys of the empty objects that stand for the directories of
    /// `user_id`: one each under `oplog/`, `snapshots/` and `data/`.
    pub fn ensure_user_directories(&self, user_id: &str) -> (keys: Vec<String>)
        ensures
            keys.len() == 3,
            keys[0]@ == user_id@ + "/oplog/"@ + "/.keep"@,
            keys[1]@ == user_id@ + "/snapshots/"@ + "/.keep"@,
            keys[2]@ == user_id@ + "/data/"@ + "/.keep"@,
    {
        let mut keys: Vec<String> = Vec::new();
        let mut oplog = user_id.to_string();
        oplog.append("/oplog/");
        oplog.append("/.keep");
        keys.push(oplog);
        let mut snapshots = user_id.to_string();
        snapshots.append("/snapshots/");
        snapshots.append("/.keep");
        keys.push(snapshots);
        let mut data = user_id.to_string();
        data.append("/data/");
        data.append("/.keep");
        keys.push(data);
        keys
    }

    /// The prefix of every key of `user_id`: what is listed, and then
    /// deleted, to remove the user.
    pub fn cleanup_user_data(&self, user_id: &str) -> (prefix: String)
        ensures
            prefix@ == user_id@ + "/"@,
    {
        let mut prefix = user_id.to_string();
        prefix.append("/");
        prefix
    }

    /// Counts and weighs the objects of a user, given the key and the size
    /// of each; `None` where a sum does not fit in 64 bits.
    pub fn get_storage_stats(&self, objects: &Vec<(String, u64)>) -> (r: Option<StorageStats>)
        ensures
            r is Some <==> bytes_in(objects_view(objects@), None, objects.len() as int)
                <= u64::MAX,
            r matches Some(stats) ==> stats.describes(
                objects_view(objects@),
                objects.len() as int,
            ),
    {
        let ghost view = objects_view(objects@);
        let mut stats = StorageStats::default();
        let mut i: usize = 0;
        while i < objects.len()
            invariant
                i <= objects.len(),
                view == objects_view(objects@),
                stats.describes(view, i as int),
            decreases objects.len() - i,
        {
            let size = objects[i].1;
            proof {
                lemma_counts_bounded(view, None, i as int);
                lemma_counts_bounded(view, Some(KeyClass::Oplog), i as int);
                lemma_counts_bounded(view, Some(KeyClass::Snapshot), i as int);
                lemma_counts_bounded(view, Some(KeyClass::Data), i as int);
                lemma_counts_bounded(view, None, i + 1);
                lemma_counts_bounded(view, None, objects.len() as int);
                lemma_total_grows(view, i + 1, objects.len() as int);
            }
            let total = match stats.total_size.checked_add(size) {
                Some(total) => total,
                None => {
                    return None;
                },
            };
            stats.total_files = stats.total_files + 1;
            stats.total_size = total;
            match classify(objects[i].0.as_str()) {
                KeyClass::Oplog => {
                    stats.oplog_files = stats.oplog_files + 1;
                    stats.oplog_size = stats.oplog_size + size;
                },
                KeyClass::Snapshot => {
                    stats.snapshot_files = stats.snapshot_files + 1;
                    stats.snapshot_size = stats.snapshot_size + size;
                },
                KeyClass::Data => {
                    stats.data_files = stats.data_files + 1;
                    stats.data_size = stats.data_size + size;
                },
                KeyClass::Other => {},
            }
            i += 1;
        }
        Some(stats)
    }
}

/// The weight of all objects never falls as more objects are taken in.
pub proof fn lemma_total_grows(objects: Seq<(Seq<char>, u64)>, n: int, m: int)
    requires
        0 <= n <= m,
    ensures
        bytes_in(objects, None, n) <= bytes_in(objects, None, m),
    decreases m - n,
{
    if n < m {
        lemma_total_grows(objects, n, m - 1);
    }
}

} // verus!
