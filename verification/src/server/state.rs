use crate::config::AppConfig;
use crate::server::auth::{hash_password, password_matches, random_secret};
use crate::server::files::{FileItem, Registry, TextItem};
use crate::server::upload::{UploadManager, UploadSessionView};
use crate::text::{chars_of, trim_ws, trim_ws_chars};
use std::sync::Arc;
use std::time::{SystemTime, UNIX_EPOCH};
use vstd::prelude::*;
use vstd::utf8::encode_utf8;

verus! {

#[verifier::external_type_specification]
#[verifier::external_body]
pub struct ExSystemTime(SystemTime);

/// `SystemTime::now`: the wall-clock time.
#[verifier::external_body]
fn clock_now() -> SystemTime {
    SystemTime::now()
}

/// `SystemTime::duration_since(UNIX_EPOCH)` in whole seconds; None for a time before
/// the epoch.
#[verifier::external_body]
fn whole_secs_since_epoch(t: SystemTime) -> Option<u64> {
    t.duration_since(UNIX_EPOCH).ok().map(|d| d.as_secs())
}

/// The timestamp of a clock reading: its whole seconds since the epoch as an `i64`
/// (wrapping past `i64::MAX`), or 0 for a reading before the epoch (`None`).
pub open spec fn stamp_of(secs: Option<u64>) -> i64 {
    match secs {
        Some(s) => s as i64,
        None => 0,
    }
}

/// Turns a clock reading (whole seconds since the epoch, None before it) into a
/// timestamp.
pub fn secs_to_stamp(secs: Option<u64>) -> (r: i64)
    ensures
        r == stamp_of(secs),
{
    match secs {
        Some(s) => s as i64,
        None => 0,
    }
}

/// Seconds since the Unix epoch (0 when the clock reads earlier): the timestamp of the
/// current clock reading.
pub fn now_secs() -> (r: i64)
    ensures
        exists|secs: Option<u64>| r == #[trigger] stamp_of(secs),
{
    let secs = whole_secs_since_epoch(clock_now());
    let r = secs_to_stamp(secs);
    assert(r == stamp_of(secs));
    r
}

} // verus!

verus! {

/// Characters of the URL-safe alphabet that generated ids use.
pub open spec fn is_id_char(c: char) -> bool {
    c == '_' || c == '-' || ('0' <= c && c <= '9') || ('a' <= c && c <= 'z') || ('A' <= c && c
        <= 'Z')
}

/// Length of the ids of uploaded and shared files (and of upload sessions).
pub const FILE_ID_LEN: usize = 16;

/// Length of the ids of shared texts.
pub const TEXT_ID_LEN: usize = 12;

/// Length of the owner token.
pub const OWNER_TOKEN_LEN: usize = 32;

/// Whether `s` has `n` characters, all from the id alphabet.
pub open spec fn is_id_of_len(s: Seq<char>, n: nat) -> bool {
    s.len() == n && forall|i: int| 0 <= i < s.len() ==> is_id_char(#[trigger] s[i])
}

/// A fresh random id for a file, its directory, or an upload session.
pub fn new_file_id() -> (r: String)
    ensures
        is_id_of_len(r@, FILE_ID_LEN as nat),
{
    new_id(FILE_ID_LEN)
}

/// A fresh random owner token.
pub fn new_owner_token() -> (r: String)
    ensures
        is_id_of_len(r@, OWNER_TOKEN_LEN as nat),
{
    new_id(OWNER_TOKEN_LEN)
}

/// A random id of `size` characters from the URL-safe alphabet (`nanoid!(size)`).
/// The characters are random; what is claimed is the length and the alphabet, which
/// `nanoid::format` guarantees by returning once `size` alphabet characters are in.
#[verifier::external_body]
pub(crate) fn new_id(size: usize) -> (r: String)
    requires
        size > 0,
    ensures
        r@.len() == size,
        forall|i: int| 0 <= i < r@.len() ==> is_id_char(#[trigger] r@[i]),
{
    nanoid::format(nanoid::rngs::default, &nanoid::alphabet::SAFE, size)
}

/// Live-sync events pushed to every connected client.
#[derive(Debug)]
pub enum SyncEvent {
    FileAdded { file: Arc<FileItem> },
    FileRemoved { id: String },
    TextAdded { text: Arc<TextItem> },
    TextRemoved { id: String },
    Cleared,
}

/// Whether a visitor password is in force for these settings: enabled and not blank.
pub open spec fn password_required_for(enabled: bool, password: Seq<char>) -> bool {
    enabled && trim_ws(password).len() > 0
}

/// What a stored password hash must satisfy: none unless a password is in force, one
/// whenever a password within Argon2's length limit is in force, and any hash present
/// verifies the configured password.
pub open spec fn hash_fits(hash: Option<String>, enabled: bool, password: Seq<char>) -> bool {
    &&& !password_required_for(enabled, password) ==> hash is None
    &&& password_required_for(enabled, password) && encode_utf8(password).len() <= u32::MAX
        ==> hash is Some
    &&& hash matches Some(h) ==> password_matches(password, h@)
}

fn password_in_force(enabled: bool, password: &String) -> (r: bool)
    ensures
        r == password_required_for(enabled, password@),
{
    if !enabled {
        return false;
    }
    let cs = chars_of(password.as_str());
    let t = trim_ws_chars(&cs);
    t.len() > 0
}

/// The Argon2 hash of the configured password, or None when no password is in force
/// (or hashing failed).
pub fn compute_password_hash(cfg: &AppConfig) -> (r: Option<String>)
    ensures
        hash_fits(r, cfg.password_enabled, cfg.password@),
{
    if !password_in_force(cfg.password_enabled, &cfg.password) {
        return None;
    }
    match hash_password(cfg.password.as_str()) {
        Ok(h) => Some(h),
        Err(_) => None,
    }
}

/// The server's state apart from its event channel.
pub struct AppState {
    pub config: AppConfig,
    pub owner_token: String,
    pub started_at: i64,
    pub registry: Registry,
    pub uploads: UploadManager,
    /// Key that signs visitor tokens; replaced whenever the password settings change.
    pub jwt_secret: String,
    /// Argon2 hash of the visitor password (None when no password is in force).
    pub password_hash: Option<String>,
    /// Bookkeeping for key rotation.
    pub auth: AuthRecord,
}

/// The password settings the current hash and signing key were made from, and the
/// authentication epoch, bumped each time the key is replaced (live connections compare
/// it with the value they saw at connect time).
pub struct AuthRecord {
    last_spec: (bool, String),
    epoch: u64,
}

impl AuthRecord {
    pub closed spec fn spec_pair(&self) -> (bool, Seq<char>) {
        (self.last_spec.0, self.last_spec.1@)
    }

    pub closed spec fn epoch(&self) -> u64 {
        self.epoch
    }
}

impl AppState {
    /// The (enabled, password) pair the current hash and key belong to.
    pub open spec fn auth_spec(&self) -> (bool, Seq<char>) {
        self.auth.spec_pair()
    }

    /// The current authentication epoch.
    pub open spec fn epoch(&self) -> u64 {
        self.auth.epoch()
    }

    /// The registry and the upload manager are well formed.
    pub open spec fn wf(&self) -> bool {
        &&& self.registry.wf()
        &&& self.uploads.wf()
        &&& hash_fits(self.password_hash, self.auth_spec().0, self.auth_spec().1)
    }

    /// Whether the password settings changed since the hash and key were last made.
    pub open spec fn auth_stale(&self) -> bool {
        self.auth_spec() != (self.config.password_enabled, self.config.password@)
    }

    /// Builds the state for a server that is starting: a fresh signing key, the
    /// password hash for `config`, no uploads in progress, epoch 0.
    pub fn new(config: AppConfig, owner_token: String, registry: Registry) -> (r: AppState)
        requires
            registry.wf(),
        ensures
            r.wf(),
            r.config == config,
            r.owner_token == owner_token,
            r.registry == registry,
            r.uploads.sessions() == Map::<Seq<char>, UploadSessionView>::empty(),
            r.uploads.signatures() == Map::<Seq<char>, Seq<char>>::empty(),
            r.jwt_secret@.len() == 64,
            hash_fits(r.password_hash, config.password_enabled, config.password@),
            r.auth_spec() == (config.password_enabled, config.password@),
            !r.auth_stale(),
            r.epoch() == 0,
    {
        let jwt_secret = random_secret();
        let last_spec = (config.password_enabled, config.password.clone());
        let password_hash = compute_password_hash(&config);
        AppState {
            config,
            owner_token,
            started_at: now_secs(),
            registry,
            uploads: UploadManager::new(),
            jwt_secret,
            password_hash,
            auth: AuthRecord { last_spec, epoch: 0 },
        }
    }

    /// Whether visitors must log in: the password is enabled and not blank.
    pub fn password_required(&self) -> (r: bool)
        ensures
            r == password_required_for(self.config.password_enabled, self.config.password@),
    {
        password_in_force(self.config.password_enabled, &self.config.password)
    }

    /// A copy of the current signing key.
    pub fn jwt_secret_snapshot(&self) -> (r: String)
        ensures
            r@ == self.jwt_secret@,
    {
        self.jwt_secret.clone()
    }

    /// Replaces the settings (those read at start-up, such as the port, keep their
    /// effect until a restart).
    pub fn update_config(&mut self, new_config: AppConfig)
        ensures
            final(self).config == new_config,
            final(self).owner_token == old(self).owner_token,
            final(self).started_at == old(self).started_at,
            final(self).registry == old(self).registry,
            final(self).uploads == old(self).uploads,
            final(self).jwt_secret == old(self).jwt_secret,
            final(self).password_hash == old(self).password_hash,
            final(self).auth_spec() == old(self).auth_spec(),
            final(self).epoch() == old(self).epoch(),
            final(self).wf() == old(self).wf(),
    {
        self.config = new_config;
    }

    /// Brings the password hash up to date with the settings. When the password or its
    /// enabled flag changed, the signing key is replaced (every issued token stops
    /// verifying) and the epoch moves on; then it gives back true.
    pub fn reload_auth(&mut self) -> (rotated: bool)
        requires
            old(self).wf(),
        ensures
            final(self).wf(),
            rotated == old(self).auth_stale(),
            !rotated ==> *final(self) == *old(self),
            rotated ==> {
                &&& final(self).auth_spec() == (
                    old(self).config.password_enabled,
                    old(self).config.password@,
                )
                &&& final(self).epoch() == if old(self).epoch() == u64::MAX {
                    0
                } else {
                    (old(self).epoch() + 1) as u64
                }
                &&& hash_fits(
                    final(self).password_hash,
                    old(self).config.password_enabled,
                    old(self).config.password@,
                )
                &&& final(self).jwt_secret@.len() == 64
                &&& final(self).config == old(self).config
                &&& final(self).owner_token == old(self).owner_token
                &&& final(self).started_at == old(self).started_at
                &&& final(self).registry == old(self).registry
                &&& final(self).uploads == old(self).uploads
            },
            !final(self).auth_stale(),
    {
        let new_enabled = self.config.password_enabled;
        let same_password = self.auth.last_spec.1 == self.config.password;
        let changed = self.auth.last_spec.0 != new_enabled || !same_password;
        if !changed {
            return false;
        }
        let next_epoch = if self.auth.epoch == u64::MAX {
            0
        } else {
            self.auth.epoch + 1
        };
        self.auth = AuthRecord {
            last_spec: (new_enabled, self.config.password.clone()),
            epoch: next_epoch,
        };
        self.password_hash = compute_password_hash(&self.config);
        self.jwt_secret = random_secret();
        true
    }

    /// The current authentication epoch.
    pub fn auth_epoch(&self) -> (r: u64)
        ensures
            r == self.epoch(),
    {
        self.auth.epoch
    }
}

} // verus!
