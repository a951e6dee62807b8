//! Runtime configuration: paths and choices from the environment only.
use vstd::prelude::*;

use crate::env::{opt_view, EnvVars};
use crate::text::{csv_items, csv_items_exec, owned, strings_view};

verus! {

/// A variable's value when it is set and not empty.
pub open spec fn non_empty(v: Option<Seq<char>>) -> Option<Seq<char>> {
    match v {
        Some(s) => if s.len() > 0 {
            Some(s)
        } else {
            None
        },
        None => None,
    }
}

/// The services enabled by default, by their service TOML `name`.
pub open spec fn default_quantra_enable() -> Seq<Seq<char>> {
    seq![
        "quantra-netd"@,
        "quantra-net"@,
        "quantra-logind"@,
        "console-shell"@,
        "graphical-launcher"@,
    ]
}

/// The service list `ZAINIUM_QUANTRA_ENABLE` selects: its items whenever
/// it is set (none for an empty or blank value), the default list only
/// when it is unset.
pub open spec fn quantra_enable_from(v: Option<Seq<char>>) -> Seq<Seq<char>> {
    match v {
        Some(s) => csv_items(s),
        None => default_quantra_enable(),
    }
}

/// Setting `ZAINIUM_QUANTRA_ENABLE` to an empty value selects no service:
/// the default list stands only for a variable that is unset.
pub proof fn lemma_empty_quantra_enable_selects_nothing()
    ensures
        quantra_enable_from(Some(Seq::<char>::empty())) == Seq::<Seq<char>>::empty(),
        quantra_enable_from(None) == default_quantra_enable(),
{
    reveal_with_fuel(csv_items, 2);
}

/// The install mount point `ZAINIUM_INSTALL_MOUNT` selects.
pub open spec fn install_mount_from(v: Option<Seq<char>>) -> Seq<char> {
    match non_empty(v) {
        Some(s) => s,
        None => "/mnt/install"@,
    }
}

/// The root filesystem type `ZAINIUM_ROOT_FSTYPE` selects.
pub open spec fn root_fstype_from(v: Option<Seq<char>>) -> Seq<char> {
    match non_empty(v) {
        Some(s) => s,
        None => "ext4"@,
    }
}

/// Runtime configuration for the installer.
#[derive(Debug)]
pub struct InstallerConfig {
    pub zairoot: Option<String>,
    pub overlayer: Option<String>,
    pub zaisys: Option<String>,
    pub squash: Option<String>,
    pub install_mount: String,
    pub root_fstype: String,
    /// Optional override: the live limine.conf you prepared.
    pub limine_live_conf: Option<String>,
    /// Optional override: the install-time conf for the installer to deploy.
    pub limine_install_conf: Option<String>,
    /// Quantra services to write enable markers for (only when their TOML
    /// already exists on the target).
    pub quantra_enable: Vec<String>,
}

/// `key`'s value when it is set and not empty.
pub fn env_path(env: &EnvVars, key: &str) -> (r: Option<String>)
    ensures
        opt_view(r) == non_empty(env.lookup(key@)),
{
    match env.get(key) {
        Some(s) => if s.as_str().is_empty() {
            None
        } else {
            Some(s)
        },
        None => None,
    }
}

/// `key`'s value when it is set and not empty.
pub fn env_string(env: &EnvVars, key: &str) -> (r: Option<String>)
    ensures
        opt_view(r) == non_empty(env.lookup(key@)),
{
    env_path(env, key)
}

/// The trimmed, non-empty comma-separated items of `key`, when it is set
/// and not empty.
pub fn env_list(env: &EnvVars, key: &str) -> (r: Option<Vec<String>>)
    ensures
        r is Some <==> non_empty(env.lookup(key@)) is Some,
        r matches Some(v) ==> strings_view(v@) == csv_items(non_empty(env.lookup(key@))->0),
{
    match env_string(env, key) {
        Some(s) => Some(csv_items_exec(s.as_str())),
        None => None,
    }
}

fn default_services() -> (v: Vec<String>)
    ensures
        strings_view(v@) == default_quantra_enable(),
{
    let mut v: Vec<String> = Vec::new();
    v.push(owned("quantra-netd"));
    v.push(owned("quantra-net"));
    v.push(owned("quantra-logind"));
    v.push(owned("console-shell"));
    v.push(owned("graphical-launcher"));
    assert(strings_view(v@) =~= default_quantra_enable());
    v
}

impl InstallerConfig {
    /// The configuration the `ZAINIUM_*` variables describe.
    pub fn from_env(env: &EnvVars) -> (c: InstallerConfig)
        ensures
            opt_view(c.zairoot) == non_empty(env.lookup("ZAINIUM_ZAIROOT"@)),
            opt_view(c.overlayer) == non_empty(env.lookup("ZAINIUM_OVERLAYER"@)),
            opt_view(c.zaisys) == non_empty(env.lookup("ZAINIUM_ZAISYS"@)),
            opt_view(c.squash) == non_empty(env.lookup("ZAINIUM_SQUASH"@)),
            c.install_mount@ == install_mount_from(env.lookup("ZAINIUM_INSTALL_MOUNT"@)),
            c.root_fstype@ == root_fstype_from(env.lookup("ZAINIUM_ROOT_FSTYPE"@)),
            opt_view(c.limine_live_conf) == non_empty(env.lookup("ZAINIUM_LIMINE_LIVE_CONF"@)),
            opt_view(c.limine_install_conf) == non_empty(
                env.lookup("ZAINIUM_LIMINE_INSTALL_CONF"@),
            ),
            strings_view(c.quantra_enable@) == quantra_enable_from(
                env.lookup("ZAINIUM_QUANTRA_ENABLE"@),
            ),
    {
        let quantra_enable = match env.get("ZAINIUM_QUANTRA_ENABLE") {
            Some(s) => csv_items_exec(s.as_str()),
            None => default_services(),
        };
        InstallerConfig {
            zairoot: env_path(env, "ZAINIUM_ZAIROOT"),
            overlayer: env_path(env, "ZAINIUM_OVERLAYER"),
            zaisys: env_path(env, "ZAINIUM_ZAISYS"),
            squash: env_path(env, "ZAINIUM_SQUASH"),
            install_mount: match env_path(env, "ZAINIUM_INSTALL_MOUNT") {
                Some(p) => p,
                None => owned("/mnt/install"),
            },
            root_fstype: match env_string(env, "ZAINIUM_ROOT_FSTYPE") {
                Some(s) => s,
                None => owned("ext4"),
            },
            limine_live_conf: env_path(env, "ZAINIUM_LIMINE_LIVE_CONF"),
            limine_install_conf: env_path(env, "ZAINIUM_LIMINE_INSTALL_CONF"),
            quantra_enable,
        }
    }
}

} // verus!
