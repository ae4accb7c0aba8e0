//! A worked wiring example: the declarations the tests drive through the
//! resolver describe these types. The account server is an exported entry
//! point; the hasher implements the password-hashing capability over an
//! externally supplied connection; the two configuration types are
//! configuration-sourced.

use vstd::prelude::*;

verus! {

/// A greeting capability with no obligations.
pub trait Hello {
}

/// Connection settings for the account service.
pub struct AccountConfig {
    pub addr: String,
    pub port: u16,
}

/// Hashes passwords and verifies them against stored hashes.
pub trait PasswordHasher {
    /// Hashes a raw password.
    fn hash(&self, raw_password: &str) -> Result<String, String>;

    /// Whether a raw password matches a stored hash.
    fn verify(&self, raw_password: &str, hashed_password: &str) -> Result<bool, String>;
}

/// Cost settings for the bcrypt hasher.
pub struct BcryptHasherConfig {
    pub cost: u32,
}

/// An externally supplied connection: requested manually, never
/// constructed by the generator.
pub struct Connection {
}

/// A password hasher built from its configuration and an externally
/// supplied connection.
pub struct BcryptHasher {
    cfg: BcryptHasherConfig,
    conn: Connection,
}

impl BcryptHasher {
    /// The constructor the generated plan calls, taking the dependencies
    /// in declared field order.
    pub fn new(cfg: BcryptHasherConfig, conn: Connection) -> BcryptHasher {
        BcryptHasher { cfg, conn }
    }
}

impl PasswordHasher for BcryptHasher {
    fn hash(&self, raw_password: &str) -> Result<String, String> {
        Err("hashing is not available".to_owned())
    }

    fn verify(&self, raw_password: &str, hashed_password: &str) -> Result<bool, String> {
        Ok(true)
    }
}

/// The account service front end: an exported entry point built from its
/// configuration and a password hasher.
pub struct AccountGrpcServer {
    config: AccountConfig,
    password_hasher: BcryptHasher,
}

impl AccountGrpcServer {
    /// The constructor the generated plan calls.
    pub fn new(config: AccountConfig, password_hasher: BcryptHasher) -> AccountGrpcServer {
        AccountGrpcServer { config, password_hasher }
    }
}

impl Hello for AccountGrpcServer {
}

} // verus!
