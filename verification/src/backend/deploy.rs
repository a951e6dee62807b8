//! Deploying the OS: which source is used for each install mode, and where
//! things land on the target. Only a real packed image or live overlayer
//! is deployed, never a stub tree.
use vstd::prelude::*;

use crate::backend::assets::{
    dir_override, file_name, file_name_exec, file_override, image_format, image_format_spec,
    AssetReport,
};
use crate::backend::elevate_cmd::{cmd_view, CommandLine};
use crate::backend::paths::{join, join_path, syshub, syshub_of, zaisys, zaisys_of};
use crate::env::opt_view;
use crate::model::install_plan::{InstallMode, InstallPlan};
use crate::snapshot::FsSnapshot;
use crate::text::{extend_str, from_chars, owned, str_eq, strings_view, to_chars};

verus! {

/// What the deploy job does.
pub enum DeployAction {
    /// Expand this packed root image onto the target.
    PackedImage(String),
    /// Copy this live overlayer (the packed image is missing).
    RsyncFallback(String),
    /// Copy this live overlayer (the mode asks for it).
    Rsync(String),
    /// Keep this packed image on the target.
    KeepSquash(String),
    /// No source at all.
    Missing,
}

/// The deploy job's choice: the packed image `squash` and live `overlayer`
/// are those the plan names (when they exist) or discovery found.
pub fn choose_deploy(mode: InstallMode, squash: Option<String>, overlayer: Option<String>) -> (r:
    Result<DeployAction, String>)
    ensures
        match mode {
            InstallMode::ExpandSquash => match (squash, overlayer) {
                (Some(s), _) => r matches Ok(DeployAction::PackedImage(p)) && p == s,
                (None, Some(o)) => r matches Ok(DeployAction::RsyncFallback(p)) && p == o,
                (None, None) => r matches Ok(DeployAction::Missing),
            },
            InstallMode::RsyncLiveTree => match overlayer {
                Some(o) => r matches Ok(DeployAction::Rsync(p)) && p == o,
                None => r matches Err(e) && e@ == "no live overlayer found (set ZAINIUM_OVERLAYER)"@,
            },
            InstallMode::KeepSquash => match squash {
                Some(s) => r matches Ok(DeployAction::KeepSquash(p)) && p == s,
                None => r matches Err(e) && e@
                    == "no zairoot.img/zairoot.squash found (set ZAINIUM_SQUASH)"@,
            },
        },
{
    match mode {
        InstallMode::ExpandSquash => match squash {
            Some(s) => Ok(DeployAction::PackedImage(s)),
            None => match overlayer {
                Some(o) => Ok(DeployAction::RsyncFallback(o)),
                None => Ok(DeployAction::Missing),
            },
        },
        InstallMode::RsyncLiveTree => match overlayer {
            Some(o) => Ok(DeployAction::Rsync(o)),
            None => Err(owned("no live overlayer found (set ZAINIUM_OVERLAYER)")),
        },
        InstallMode::KeepSquash => match squash {
            Some(s) => Ok(DeployAction::KeepSquash(s)),
            None => Err(owned("no zairoot.img/zairoot.squash found (set ZAINIUM_SQUASH)")),
        },
    }
}

/// The first of two options that holds a value.
pub open spec fn or_else(a: Option<Seq<char>>, b: Option<Seq<char>>) -> Option<Seq<char>> {
    match a {
        Some(x) => Some(x),
        None => b,
    }
}

/// The deploy job's sources: the packed image and the live overlayer the
/// plan names, when they exist (a file, a directory), else those
/// discovery found.
pub fn deploy_sources(plan: &InstallPlan, assets: &AssetReport, snap: &FsSnapshot) -> (r: (
    Option<String>,
    Option<String>,
))
    ensures
        opt_view(r.0) == or_else(
            file_override(*snap, opt_view(plan.squash_path)),
            opt_view(assets.squash),
        ),
        opt_view(r.1) == or_else(
            dir_override(*snap, opt_view(plan.live_overlayer)),
            opt_view(assets.overlayer),
        ),
{
    let squash = match &plan.squash_path {
        Some(p) if snap.is_file(p.as_str()) => Some(p.clone()),
        _ => assets.squash.clone(),
    };
    let overlayer = match &plan.live_overlayer {
        Some(p) if snap.is_dir(p.as_str()) => Some(p.clone()),
        _ => assets.overlayer.clone(),
    };
    (squash, overlayer)
}

/// The deploy job's result when there is no source: a dry run only lays
/// out the skeleton; a real install is refused.
pub fn deploy_missing(dry_run: bool) -> (r: Result<String, String>)
    ensures
        dry_run ==> (r matches Ok(s) && s@ == "skipped deploy (no source assets)"@),
        !dry_run ==> (r matches Err(e) && e@
            == "no OS source: provide zairoot.img/zairoot.squash (ZAINIUM_SQUASH) or overlayer (ZAINIUM_OVERLAYER)"@),
{
    if dry_run {
        Ok(owned("skipped deploy (no source assets)"))
    } else {
        Err(
            owned(
                "no OS source: provide zairoot.img/zairoot.squash (ZAINIUM_SQUASH) or overlayer (ZAINIUM_OVERLAYER)",
            ),
        )
    }
}

/// Installer files removed from a freshly deployed target, should the
/// source image have carried them.
pub open spec fn installer_paths_spec(root: Seq<char>) -> Seq<Seq<char>> {
    seq![
        join(zaisys_of(root), "bin/carve"@),
        join(zaisys_of(root), "lib/systemd/system/carve-install.service"@),
        join(zaisys_of(root), "lib/systemd/system/carve-install.target"@),
        join(syshub_of(root), "bin/zainium-installer"@),
        join(syshub_of(root), "share/applications/tech.zainiumdynamics.Installer.desktop"@),
        join(
            syshub_of(root),
            "share/icons/hicolor/scalable/apps/tech.zainiumdynamics.Installer.svg"@,
        ),
    ]
}

pub fn installer_paths(root: &str) -> (v: Vec<String>)
    ensures
        strings_view(v@) == installer_paths_spec(root@),
{
    let sys = zaisys(root);
    let hub = syshub(root);
    let mut v: Vec<String> = Vec::new();
    v.push(join_path(sys.as_str(), "bin/carve"));
    v.push(join_path(sys.as_str(), "lib/systemd/system/carve-install.service"));
    v.push(join_path(sys.as_str(), "lib/systemd/system/carve-install.target"));
    v.push(join_path(hub.as_str(), "bin/zainium-installer"));
    v.push(join_path(hub.as_str(), "share/applications/tech.zainiumdynamics.Installer.desktop"));
    v.push(
        join_path(
            hub.as_str(),
            "share/icons/hicolor/scalable/apps/tech.zainiumdynamics.Installer.svg",
        ),
    );
    assert(strings_view(v@) =~= installer_paths_spec(root@));
    v
}

/// Where a kept packed image goes: under the target's zaisys, by its own
/// file name (`zairoot.squash` when it has none).
pub fn keep_squash_dest(root: &str, squash: &str) -> (r: String)
    ensures
        r@ == join(
            zaisys_of(root@),
            match file_name(squash@) {
                Some(n) => n,
                None => "zairoot.squash"@,
            },
        ),
{
    let name = match file_name_exec(squash) {
        Some(n) => n,
        None => owned("zairoot.squash"),
    };
    let z = zaisys(root);
    join_path(z.as_str(), name.as_str())
}


/// The command that expands a packed root image onto the target root:
/// `fsck.erofs --extract` for an EROFS image (`.img`), `unsquashfs`
/// otherwise. Both extract in user space.
pub fn expand_image_command(image: &str, root: &str) -> (c: CommandLine)
    ensures
        image_format_spec(Some(image@)) == "erofs"@ ==> cmd_view(c) == (
            "fsck.erofs"@,
            seq!["--extract="@ + root@, "--overwrite"@, image@],
        ),
        image_format_spec(Some(image@)) != "erofs"@ ==> cmd_view(c) == (
            "unsquashfs"@,
            seq!["-f"@, "-d"@, root@, image@],
        ),
{
    let mut args: Vec<String> = Vec::new();
    let fmt = image_format(Some(image));
    if str_eq(fmt, "erofs") {
        let mut x: Vec<char> = Vec::new();
        extend_str(&mut x, "--extract=");
        extend_str(&mut x, root);
        args.push(from_chars(&x));
        args.push(owned("--overwrite"));
        args.push(owned(image));
        assert(strings_view(args@) =~= seq!["--extract="@ + root@, "--overwrite"@, image@]);
        CommandLine { program: "fsck.erofs", args }
    } else {
        args.push(owned("-f"));
        args.push(owned("-d"));
        args.push(owned(root));
        args.push(owned(image));
        assert(strings_view(args@) =~= seq!["-f"@, "-d"@, root@, image@]);
        CommandLine { program: "unsquashfs", args }
    }
}

/// The copy of the live overlayer tree into the target's overlayer
/// (contents, hard links, ACLs and extended attributes kept).
pub fn rsync_command(live: &str, dest: &str) -> (c: CommandLine)
    ensures
        cmd_view(c) == ("rsync"@, seq!["-aHAX"@, "--info=progress2"@, live@ + "/"@, dest@ + "/"@]),
{
    let mut args: Vec<String> = Vec::new();
    args.push(owned("-aHAX"));
    args.push(owned("--info=progress2"));
    let mut a: Vec<char> = to_chars(live);
    extend_str(&mut a, "/");
    args.push(from_chars(&a));
    let mut b: Vec<char> = to_chars(dest);
    extend_str(&mut b, "/");
    args.push(from_chars(&b));
    assert(strings_view(args@) =~= seq!["-aHAX"@, "--info=progress2"@, live@ + "/"@, dest@ + "/"@]);
    CommandLine { program: "rsync", args }
}

/// The immutable-flag command that locks a boot file on the target.
pub fn lock_command(path: &str) -> (c: CommandLine)
    ensures
        cmd_view(c) == ("chattr"@, seq!["+i"@, path@]),
{
    let mut args: Vec<String> = Vec::new();
    args.push(owned("+i"));
    args.push(owned(path));
    assert(strings_view(args@) =~= seq!["+i"@, path@]);
    CommandLine { program: "chattr", args }
}

} // verus!
