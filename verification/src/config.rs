//! Configuration: `/etc/agh-dash/config.toml`, the `AGH_DASH_PASSWORD`
//! override, and the `--config` argument.

use vstd::prelude::*;
use crate::text::{digits, push_number, push_str};

verus! {

/// Default config location; `--config <path>` overrides it.
pub const DEFAULT_PATH: &'static str = "/etc/agh-dash/config.toml";

/// The dashboard's settings.
#[derive(Debug)]
pub struct Config {
    pub base_url: String,
    pub username: String,
    pub password: String,
    /// How often the statistics are fetched, in seconds.
    pub refresh_secs: u64,
    /// Per-request budget in milliseconds.
    pub timeout_ms: u64,
}

/// `base_url` when the file has none.
pub fn default_base_url() -> (res: String)
    ensures
        res@ == "http://127.0.0.1:8080"@,
{
    String::from_str("http://127.0.0.1:8080")
}

/// `username` when the file has none.
pub fn default_username() -> (res: String)
    ensures
        res@ == "admin"@,
{
    String::from_str("admin")
}

/// `refresh_secs` when the file has none, or has zero.
pub fn default_refresh_secs() -> (res: u64)
    ensures
        res == 5,
{
    5
}

/// `timeout_ms` when the file has none.
pub fn default_timeout_ms() -> (res: u64)
    ensures
        res == 10_000,
{
    10_000
}

/// Why a config cannot be used.
#[derive(Debug, PartialEq, Eq)]
pub enum ConfigError {
    /// Neither the file nor `AGH_DASH_PASSWORD` gave a password.
    NoPassword,
}

impl Config {
    /// The password in force: `AGH_DASH_PASSWORD` when it is set, else the
    /// file's.
    pub open spec fn effective_password(&self, env_password: Option<String>) -> Seq<char> {
        match env_password {
            Some(p) => p@,
            None => self.password@,
        }
    }

    /// Apply the environment's password override and check the result: the
    /// config is refused exactly when no password is left; a refresh interval
    /// of zero becomes the default.
    pub fn resolve(self, env_password: Option<String>) -> (res: Result<Config, ConfigError>)
        ensures
            self.effective_password(env_password).len() == 0 <==> res is Err,
            res matches Err(e) ==> e == ConfigError::NoPassword,
            res matches Ok(cfg) ==> {
                &&& cfg.password@ == self.effective_password(env_password)
                &&& cfg.base_url@ == self.base_url@
                &&& cfg.username@ == self.username@
                &&& cfg.timeout_ms == self.timeout_ms
                &&& cfg.refresh_secs == if self.refresh_secs == 0 {
                    5
                } else {
                    self.refresh_secs
                }
            },
    {
        let mut cfg = self;
        match env_password {
            Some(p) => {
                cfg.password = p;
            },
            None => {},
        }
        if cfg.password.as_str().unicode_len() == 0 {
            return Err(ConfigError::NoPassword);
        }
        if cfg.refresh_secs == 0 {
            cfg.refresh_secs = default_refresh_secs();
        }
        Ok(cfg)
    }
}

/// The warning printed when the config file can be read by group or other
/// (it holds the AdGuard credentials): none when the mode keeps it private.
pub fn warn_when_world_readable(path: &str, mode: u32) -> (res: Option<String>)
    ensures
        (mode & 0o077 != 0) <==> res is Some,
        res matches Some(text) ==> text@ == "[agh-slint] warning: "@ + path@
            + " is readable by group/other (mode "@ + digits((mode & 0o777) as nat, 8, 4)
            + "); it holds the AdGuard credentials"@,
{
    if mode & 0o077 != 0 {
        let mut text = String::new();
        push_str(&mut text, "[agh-slint] warning: ");
        push_str(&mut text, path);
        push_str(&mut text, " is readable by group/other (mode ");
        push_number(&mut text, (mode & 0o777) as u64, 8, 4);
        push_str(&mut text, "); it holds the AdGuard credentials");
        Some(text)
    } else {
        None
    }
}

/// The value after the first `--config` that has one.
pub open spec fn config_arg(args: Seq<Seq<char>>) -> Option<Seq<char>>
    decreases args.len(),
{
    if args.len() < 2 {
        None
    } else if args[0] == "--config"@ {
        Some(args[1])
    } else {
        config_arg(args.drop_first())
    }
}

/// Arguments as character sequences.
pub open spec fn strings_view(v: Seq<String>) -> Seq<Seq<char>> {
    v.map_values(|s: String| s@)
}

/// Resolve the config path from an optional `--config <path>` argument,
/// falling back to `DEFAULT_PATH`.
pub fn path_from_args(args: &[String]) -> (res: String)
    ensures
        res@ == match config_arg(strings_view(args@)) {
            Some(p) => p,
            None => DEFAULT_PATH@,
        },
{
    let ghost all = strings_view(args@);
    let mut i: usize = 0;
    assert(all.skip(0) =~= all);
    while args.len() - i > 1
        invariant
            all == strings_view(args@),
            i <= args@.len(),
            config_arg(all) == config_arg(all.skip(i as int)),
        decreases args@.len() - i,
    {
        assert(all.skip(i as int)[0] == args@[i as int]@);
        assert(all.skip(i as int)[1] == args@[i + 1]@);
        if crate::text::str_eq(args[i].as_str(), "--config") {
            return args[i + 1].clone();
        }
        assert(all.skip(i as int).drop_first() =~= all.skip(i + 1));
        i = i + 1;
    }
    String::from_str(DEFAULT_PATH)
}

} // verus!
