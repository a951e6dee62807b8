//! Where things live on the target: the overlayer layout under the
//! target root.
use vstd::prelude::*;

use crate::backend::config::{install_mount_from, InstallerConfig};
use crate::env::EnvVars;
use crate::model::install_plan::InstallPlan;
use crate::text::{extend_chars, from_chars, owned, strings_view, to_chars};

verus! {

/// `Path::join` on Unix: an absolute `p` replaces `base`; otherwise `p`
/// follows `base`, with one `/` between them unless `base` is empty or
/// already ends in `/`.
pub open spec fn join(base: Seq<char>, p: Seq<char>) -> Seq<char> {
    if p.len() > 0 && p[0] == '/' {
        p
    } else if base.len() > 0 && base.last() != '/' {
        base + seq!['/'] + p
    } else {
        base + p
    }
}

/// `Path::join`.
pub fn join_path(base: &str, p: &str) -> (r: String)
    ensures
        r@ == join(base@, p@),
{
    let pc = to_chars(p);
    if pc.len() > 0 && pc[0] == '/' {
        return owned(p);
    }
    let bc = to_chars(base);
    let mut v: Vec<char> = Vec::new();
    extend_chars(&mut v, &bc);
    if bc.len() > 0 && bc[bc.len() - 1] != '/' {
        v.push('/');
    }
    extend_chars(&mut v, &pc);
    assert(v@ =~= join(base@, p@));
    from_chars(&v)
}

pub open spec fn overlayer_of(root: Seq<char>) -> Seq<char> {
    join(root, "overlayer"@)
}

pub open spec fn syshub_of(root: Seq<char>) -> Seq<char> {
    join(overlayer_of(root), "syshub"@)
}

pub open spec fn zaisys_of(root: Seq<char>) -> Seq<char> {
    join(overlayer_of(root), "zaisys"@)
}

/// The physical target root: the dry-run directory, or the install mount
/// point the environment configures.
pub open spec fn target_root_spec(plan: InstallPlan, env: EnvVars) -> Seq<char> {
    if plan.dry_run {
        plan.dry_run_root@
    } else {
        install_mount_from(env.lookup("ZAINIUM_INSTALL_MOUNT"@))
    }
}

/// Physical target root (mounted install root or dry-run directory).
pub fn target_root(plan: &InstallPlan, env: &EnvVars) -> (r: String)
    ensures
        r@ == target_root_spec(*plan, *env),
{
    if plan.dry_run {
        plan.dry_run_root.clone()
    } else {
        InstallerConfig::from_env(env).install_mount
    }
}

pub fn overlayer(root: &str) -> (r: String)
    ensures
        r@ == overlayer_of(root@),
{
    join_path(root, "overlayer")
}

pub fn syshub(root: &str) -> (r: String)
    ensures
        r@ == syshub_of(root@),
{
    join_path(overlayer(root).as_str(), "syshub")
}

pub fn zaisys(root: &str) -> (r: String)
    ensures
        r@ == zaisys_of(root@),
{
    join_path(overlayer(root).as_str(), "zaisys")
}

pub fn zexlib_union(root: &str) -> (r: String)
    ensures
        r@ == join(overlayer_of(root@), "zexlib/union"@),
{
    join_path(overlayer(root).as_str(), "zexlib/union")
}

pub fn zexlib_work(root: &str) -> (r: String)
    ensures
        r@ == join(overlayer_of(root@), "zexlib/work"@),
{
    join_path(overlayer(root).as_str(), "zexlib/work")
}

pub fn zexlib_registry(root: &str) -> (r: String)
    ensures
        r@ == join(overlayer_of(root@), "zexlib/registry/installed"@),
{
    join_path(overlayer(root).as_str(), "zexlib/registry/installed")
}

pub fn quantra_services_dir(root: &str) -> (r: String)
    ensures
        r@ == join(syshub_of(root@), "etc/quantra-system/services"@),
{
    join_path(syshub(root).as_str(), "etc/quantra-system/services")
}

pub fn quantra_enabled_dir(root: &str) -> (r: String)
    ensures
        r@ == join(syshub_of(root@), "etc/quantra-system/enabled"@),
{
    join_path(syshub(root).as_str(), "etc/quantra-system/enabled")
}


/// The directories laid out on a fresh target before the OS is deployed.
pub open spec fn seed_dirs_spec(root: Seq<char>) -> Seq<Seq<char>> {
    seq![
        join(zaisys_of(root), "kernel"@),
        join(zaisys_of(root), "limine"@),
        join(overlayer_of(root), "zexlib/union"@),
        join(overlayer_of(root), "zexlib/work"@),
        join(overlayer_of(root), "zexlib/registry/installed"@),
        join(root, "home"@),
        join(root, "dev"@),
        join(root, "proc"@),
        join(root, "sys"@),
        join(root, "run"@),
    ]
}

pub fn seed_dirs(root: &str) -> (v: Vec<String>)
    ensures
        strings_view(v@) == seed_dirs_spec(root@),
{
    let z = zaisys(root);
    let mut v: Vec<String> = Vec::new();
    v.push(join_path(z.as_str(), "kernel"));
    v.push(join_path(z.as_str(), "limine"));
    v.push(zexlib_union(root));
    v.push(zexlib_work(root));
    v.push(zexlib_registry(root));
    v.push(join_path(root, "home"));
    v.push(join_path(root, "dev"));
    v.push(join_path(root, "proc"));
    v.push(join_path(root, "sys"));
    v.push(join_path(root, "run"));
    assert(strings_view(v@) =~= seed_dirs_spec(root@));
    v
}

} // verus!
