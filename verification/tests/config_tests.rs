use bucket_sync::config::{
    parse_encryption, parse_storage_class, validate_options, Encryption, Options, StorageClass,
};
use bucket_sync::errors::BackupError;

fn options(storage_class: &str, encryption: &str) -> Options {
    Options {
        path: "/home/u/data".to_string(),
        region: "eu-west-2".to_string(),
        bucket: "backups".to_string(),
        storage_class: storage_class.to_string(),
        encryption: encryption.to_string(),
    }
}

#[test]
fn parse_storage_class_accepts_every_tier() {
    assert_eq!(parse_storage_class("DEEP_ARCHIVE"), Ok(StorageClass::DeepArchive));
    assert_eq!(parse_storage_class("GLACIER"), Ok(StorageClass::Glacier));
    assert_eq!(parse_storage_class("GLACIER_IR"), Ok(StorageClass::GlacierIr));
    assert_eq!(
        parse_storage_class("INTELLIGENT_TIERING"),
        Ok(StorageClass::IntelligentTiering)
    );
    assert_eq!(parse_storage_class("ONEZONE_IA"), Ok(StorageClass::OnezoneIa));
    assert_eq!(parse_storage_class("OUTPOSTS"), Ok(StorageClass::Outposts));
    assert_eq!(
        parse_storage_class("REDUCED_REDUNDANCY"),
        Ok(StorageClass::ReducedRedundancy)
    );
    assert_eq!(parse_storage_class("STANDARD"), Ok(StorageClass::Standard));
    assert_eq!(parse_storage_class("STANDARD_IA"), Ok(StorageClass::StandardIa));
}

#[test]
fn parse_storage_class_rejects_unknown_tier() {
    assert_eq!(parse_storage_class("GOLD"), Err(BackupError::InvalidStorageClass));
    assert_eq!(parse_storage_class(""), Err(BackupError::InvalidStorageClass));
    assert_eq!(
        parse_storage_class("deep_archive"),
        Err(BackupError::InvalidStorageClass)
    );
}

#[test]
fn parse_encryption_accepts_both_modes() {
    assert_eq!(parse_encryption("AES256"), Ok(Encryption::Aes256));
    assert_eq!(parse_encryption("aws:kms"), Ok(Encryption::AwsKms));
}

#[test]
fn parse_encryption_rejects_unknown_mode() {
    assert_eq!(
        parse_encryption("none"),
        Err(BackupError::InvalidServerSideEncryption)
    );
    assert_eq!(
        parse_encryption("AES128"),
        Err(BackupError::InvalidServerSideEncryption)
    );
}

#[test]
fn tokens_round_trip() {
    assert_eq!(StorageClass::DeepArchive.token(), "DEEP_ARCHIVE");
    assert_eq!(StorageClass::StandardIa.token(), "STANDARD_IA");
    assert_eq!(Encryption::Aes256.token(), "AES256");
    assert_eq!(Encryption::AwsKms.token(), "aws:kms");
    assert_eq!(
        parse_storage_class(&StorageClass::Glacier.token()),
        Ok(StorageClass::Glacier)
    );
    assert_eq!(parse_encryption(&Encryption::AwsKms.token()), Ok(Encryption::AwsKms));
}

#[test]
fn validate_options_accepts_defaults() {
    let config = validate_options(&options("DEEP_ARCHIVE", "AES256")).unwrap();
    assert_eq!(config.bucket, "backups");
    assert_eq!(config.region, "eu-west-2");
    assert_eq!(config.root, "/home/u/data");
    assert_eq!(config.storage_class, StorageClass::DeepArchive);
    assert_eq!(config.encryption, Encryption::Aes256);
}

#[test]
fn validate_options_rejects_bad_storage_class_first() {
    assert_eq!(
        validate_options(&options("GOLD", "none")).unwrap_err(),
        BackupError::InvalidStorageClass
    );
}

#[test]
fn validate_options_rejects_bad_encryption() {
    assert_eq!(
        validate_options(&options("STANDARD", "none")).unwrap_err(),
        BackupError::InvalidServerSideEncryption
    );
}
