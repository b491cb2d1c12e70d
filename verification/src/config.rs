use vstd::prelude::*;

verus! {

/// Port the server listens on unless configured otherwise.
pub const DEFAULT_PORT: u16 = 18888;

/// Application settings.
pub struct AppConfig {
    pub auto_start: bool,
    pub upload_dir: String,
    pub port: u16,
    pub password_enabled: bool,
    pub password: String,
    pub https_enabled: bool,
    pub bind_ipv6: bool,
    /// Space (MB) an upload must leave free on the disk: an upload is refused when the
    /// free space is below `size + disk_min_free_mb` MB. 0 turns the limit off.
    pub disk_min_free_mb: u64,
}

/// The free-space reserve when none is configured: 500 MB.
pub fn default_disk_min_free_mb() -> (r: u64)
    ensures
        r == 500,
{
    500
}

impl Default for AppConfig {
    fn default() -> (r: Self)
        ensures
            !r.auto_start,
            r.upload_dir@ == Seq::<char>::empty(),
            r.port == DEFAULT_PORT,
            !r.password_enabled,
            r.password@ == Seq::<char>::empty(),
            !r.https_enabled,
            !r.bind_ipv6,
            r.disk_min_free_mb == 500,
    {
        AppConfig {
            auto_start: false,
            upload_dir: String::new(),
            port: DEFAULT_PORT,
            password_enabled: false,
            password: String::new(),
            https_enabled: false,
            bind_ipv6: false,
            disk_min_free_mb: default_disk_min_free_mb(),
        }
    }
}

impl AppConfig {
    /// A copy of these settings.
    pub fn duplicate(&self) -> (r: AppConfig)
        ensures
            r == *self,
    {
        AppConfig {
            auto_start: self.auto_start,
            upload_dir: self.upload_dir.clone(),
            port: self.port,
            password_enabled: self.password_enabled,
            password: self.password.clone(),
            https_enabled: self.https_enabled,
            bind_ipv6: self.bind_ipv6,
            disk_min_free_mb: self.disk_min_free_mb,
        }
    }
}

} // verus!
