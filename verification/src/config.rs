//! Immutable run parameters, and their validation before any I/O.
//!
//! The raw command-line values arrive as strings; the storage tier and the
//! server-side encryption mode are validated against their fixed
//! enumerations. A bad value is a configuration error, fatal before the
//! first request.

use vstd::prelude::*;
use crate::errors::BackupError;
use crate::path_codec::str_eq;

verus! {

/// The raw options handed in by the command line.
#[derive(Debug)]
pub struct Options {
    /// Directory to back up.
    pub path: String,
    /// Region of the remote store.
    pub region: String,
    /// Bucket to store data in.
    pub bucket: String,
    /// The storage tier identifier for the uploaded files.
    pub storage_class: String,
    /// The server-side encryption identifier for the uploaded files.
    pub encryption: String,
}

/// The accepted storage tiers of the remote store.
#[derive(Clone, Copy, Debug, PartialEq, Eq, Structural)]
pub enum StorageClass {
    DeepArchive,
    Glacier,
    GlacierIr,
    IntelligentTiering,
    OnezoneIa,
    Outposts,
    ReducedRedundancy,
    Standard,
    StandardIa,
}

/// The accepted server-side encryption modes.
#[derive(Clone, Copy, Debug, PartialEq, Eq, Structural)]
pub enum Encryption {
    Aes256,
    AwsKms,
}

/// The identifier under which each storage tier is requested.
pub open spec fn storage_class_token(c: StorageClass) -> Seq<char> {
    match c {
        StorageClass::DeepArchive => "DEEP_ARCHIVE"@,
        StorageClass::Glacier => "GLACIER"@,
        StorageClass::GlacierIr => "GLACIER_IR"@,
        StorageClass::IntelligentTiering => "INTELLIGENT_TIERING"@,
        StorageClass::OnezoneIa => "ONEZONE_IA"@,
        StorageClass::Outposts => "OUTPOSTS"@,
        StorageClass::ReducedRedundancy => "REDUCED_REDUNDANCY"@,
        StorageClass::Standard => "STANDARD"@,
        StorageClass::StandardIa => "STANDARD_IA"@,
    }
}

/// Whether a string names an accepted storage tier.
pub open spec fn is_valid_storage_class(s: Seq<char>) -> bool {
    exists|c: StorageClass| s == storage_class_token(c)
}

/// The identifier under which each encryption mode is requested.
pub open spec fn encryption_token(e: Encryption) -> Seq<char> {
    match e {
        Encryption::Aes256 => "AES256"@,
        Encryption::AwsKms => "aws:kms"@,
    }
}

/// Whether a string names an accepted encryption mode.
pub open spec fn is_valid_encryption(s: Seq<char>) -> bool {
    exists|e: Encryption| s == encryption_token(e)
}

impl StorageClass {
    /// The identifier this tier is requested under.
    pub fn token(&self) -> (r: String)
        ensures
            r@ == storage_class_token(*self),
    {
        match self {
            StorageClass::DeepArchive => String::from_str("DEEP_ARCHIVE"),
            StorageClass::Glacier => String::from_str("GLACIER"),
            StorageClass::GlacierIr => String::from_str("GLACIER_IR"),
            StorageClass::IntelligentTiering => String::from_str("INTELLIGENT_TIERING"),
            StorageClass::OnezoneIa => String::from_str("ONEZONE_IA"),
            StorageClass::Outposts => String::from_str("OUTPOSTS"),
            StorageClass::ReducedRedundancy => String::from_str("REDUCED_REDUNDANCY"),
            StorageClass::Standard => String::from_str("STANDARD"),
            StorageClass::StandardIa => String::from_str("STANDARD_IA"),
        }
    }
}

impl Encryption {
    /// The identifier this mode is requested under.
    pub fn token(&self) -> (r: String)
        ensures
            r@ == encryption_token(*self),
    {
        match self {
            Encryption::Aes256 => String::from_str("AES256"),
            Encryption::AwsKms => String::from_str("aws:kms"),
        }
    }
}

/// Parses a storage tier identifier; rejects exactly the strings outside
/// the fixed enumeration.
pub fn parse_storage_class(s: &str) -> (r: Result<StorageClass, BackupError>)
    ensures
        r matches Ok(c) ==> s@ == storage_class_token(c),
        r is Err <==> !is_valid_storage_class(s@),
        r matches Err(e) ==> e == BackupError::InvalidStorageClass,
{
    if str_eq(s, "DEEP_ARCHIVE") {
        proof {
            assert(s@ == storage_class_token(StorageClass::DeepArchive));
        }
        Ok(StorageClass::DeepArchive)
    } else if str_eq(s, "GLACIER") {
        proof {
            assert(s@ == storage_class_token(StorageClass::Glacier));
        }
        Ok(StorageClass::Glacier)
    } else if str_eq(s, "GLACIER_IR") {
        proof {
            assert(s@ == storage_class_token(StorageClass::GlacierIr));
        }
        Ok(StorageClass::GlacierIr)
    } else if str_eq(s, "INTELLIGENT_TIERING") {
        proof {
            assert(s@ == storage_class_token(StorageClass::IntelligentTiering));
        }
        Ok(StorageClass::IntelligentTiering)
    } else if str_eq(s, "ONEZONE_IA") {
        proof {
            assert(s@ == storage_class_token(StorageClass::OnezoneIa));
        }
        Ok(StorageClass::OnezoneIa)
    } else if str_eq(s, "OUTPOSTS") {
        proof {
            assert(s@ == storage_class_token(StorageClass::Outposts));
        }
        Ok(StorageClass::Outposts)
    } else if str_eq(s, "REDUCED_REDUNDANCY") {
        proof {
            assert(s@ == storage_class_token(StorageClass::ReducedRedundancy));
        }
        Ok(StorageClass::ReducedRedundancy)
    } else if str_eq(s, "STANDARD") {
        proof {
            assert(s@ == storage_class_token(StorageClass::Standard));
        }
        Ok(StorageClass::Standard)
    } else if str_eq(s, "STANDARD_IA") {
        proof {
            assert(s@ == storage_class_token(StorageClass::StandardIa));
        }
        Ok(StorageClass::StandardIa)
    } else {
        proof {
            assert forall|c: StorageClass| s@ != storage_class_token(c) by {
                match c {
                    StorageClass::DeepArchive => assert(s@ != "DEEP_ARCHIVE"@),
                    StorageClass::Glacier => assert(s@ != "GLACIER"@),
                    StorageClass::GlacierIr => assert(s@ != "GLACIER_IR"@),
                    StorageClass::IntelligentTiering => assert(s@ != "INTELLIGENT_TIERING"@),
                    StorageClass::OnezoneIa => assert(s@ != "ONEZONE_IA"@),
                    StorageClass::Outposts => assert(s@ != "OUTPOSTS"@),
                    StorageClass::ReducedRedundancy => assert(s@ != "REDUCED_REDUNDANCY"@),
                    StorageClass::Standard => assert(s@ != "STANDARD"@),
                    StorageClass::StandardIa => assert(s@ != "STANDARD_IA"@),
                }
            }
        }
        Err(BackupError::InvalidStorageClass)
    }
}

/// Parses an encryption mode identifier; rejects exactly the strings
/// outside the fixed enumeration.
pub fn parse_encryption(s: &str) -> (r: Result<Encryption, BackupError>)
    ensures
        r matches Ok(e) ==> s@ == encryption_token(e),
        r is Err <==> !is_valid_encryption(s@),
        r matches Err(e) ==> e == BackupError::InvalidServerSideEncryption,
{
    if str_eq(s, "AES256") {
        proof {
            assert(s@ == encryption_token(Encryption::Aes256));
        }
        Ok(Encryption::Aes256)
    } else if str_eq(s, "aws:kms") {
        proof {
            assert(s@ == encryption_token(Encryption::AwsKms));
        }
        Ok(Encryption::AwsKms)
    } else {
        proof {
            assert forall|e: Encryption| s@ != encryption_token(e) by {
                match e {
                    Encryption::Aes256 => assert(s@ != "AES256"@),
                    Encryption::AwsKms => assert(s@ != "aws:kms"@),
                }
            }
        }
        Err(BackupError::InvalidServerSideEncryption)
    }
}

/// The validated, immutable parameters of one run.
#[derive(Debug)]
pub struct SyncConfig {
    /// Bucket to store data in.
    pub bucket: String,
    /// Region of the remote store.
    pub region: String,
    /// The root of the local tree being synchronized.
    pub root: String,
    /// The storage tier for the uploaded files.
    pub storage_class: StorageClass,
    /// The server-side encryption mode for the uploaded files.
    pub encryption: Encryption,
}

/// Validates the raw options into run parameters. The storage tier is
/// checked first, then the encryption mode; the first bad value decides the
/// error.
pub fn validate_options(opts: &Options) -> (r: Result<SyncConfig, BackupError>)
    ensures
        r is Ok <==> (is_valid_storage_class(opts.storage_class@) && is_valid_encryption(
            opts.encryption@,
        )),
        r matches Ok(c) ==> {
            &&& c.bucket@ == opts.bucket@
            &&& c.region@ == opts.region@
            &&& c.root@ == opts.path@
            &&& storage_class_token(c.storage_class) == opts.storage_class@
            &&& encryption_token(c.encryption) == opts.encryption@
        },
        r matches Err(e) ==> e == (if !is_valid_storage_class(opts.storage_class@) {
            BackupError::InvalidStorageClass
        } else {
            BackupError::InvalidServerSideEncryption
        }),
{
    let storage_class = match parse_storage_class(opts.storage_class.as_str()) {
        Result::Ok(c) => c,
        Result::Err(e) => {
            return Err(e);
        },
    };
    let encryption = match parse_encryption(opts.encryption.as_str()) {
        Result::Ok(e) => e,
        Result::Err(e) => {
            return Err(e);
        },
    };
    Ok(
        SyncConfig {
            bucket: opts.bucket.clone(),
            region: opts.region.clone(),
            root: opts.path.clone(),
            storage_class,
            encryption,
        },
    )
}

} // verus!
