use carve::backend::assets::AssetReport;
use carve::backend::config::InstallerConfig;
use carve::backend::deploy::{
    choose_deploy, deploy_missing, expand_image_command, keep_squash_dest, lock_command,
    rsync_command, DeployAction,
};
use carve::backend::disk::{
    check_partition_target, format_commands, is_dry_run_stub, mark_dry_run_partitions,
    mount_commands, normalize_block_dev, parse_lsblk, partition_commands, sfdisk_script,
    sfdisk_script_path, unmount_commands,
};
use carve::backend::elevate_cmd::{
    elevate_bin, elevate_probes, root_invocation, run_root_ok, run_root_stdout, CommandOutput,
};
use carve::snapshot::FsSnapshot;
use carve::backend::limine::{
    blkid_uuid, boot_conf_uuid, boot_payload_copies, bootloader_missing_refusal, is_dummy_uuid,
    generate_install_conf, install_conf_body, limine_efi_copy, resolve_root_uuid,
    root_uuid_probes,
};
use carve::backend::paths::{quantra_enabled_dir, target_root, zexlib_registry};
use carve::backend::preflight::{missing_assets_refusal, preflight_check, preflight_summary};
use carve::backend::quantra::{enable_outcome, etc_value_file, services_dir_missing};
use carve::backend::reboot;
use carve::env::EnvVars;
use carve::model::install_plan::{DiskCandidate, InstallMode, InstallPlan, PartitionMode};

fn env(pairs: &[(&str, &str)]) -> EnvVars {
    EnvVars {
        vars: pairs
            .iter()
            .map(|(k, v)| (k.to_string(), v.to_string()))
            .collect(),
    }
}

fn disk(path: &str, bytes: u64, live: bool) -> DiskCandidate {
    DiskCandidate {
        path: path.to_string(),
        model: "QEMU HARDDISK".to_string(),
        size_bytes: bytes,
        is_live_medium: live,
    }
}

fn user_plan() -> InstallPlan {
    let mut p = InstallPlan::from_env(&EnvVars::empty());
    p.username = "alizain".to_string();
    p.password = "secret".to_string();
    p
}

fn out(success: bool, code: Option<i32>, stdout: &[u8], stderr: &[u8]) -> CommandOutput {
    CommandOutput {
        success,
        code,
        stdout: stdout.to_vec(),
        stderr: stderr.to_vec(),
    }
}

#[test]
fn plan_defaults_come_from_the_environment() {
    let p = InstallPlan::from_env(&EnvVars::empty());
    assert_eq!(p.locale, "en_US.UTF-8");
    assert_eq!(p.keyboard, "us");
    assert_eq!(p.timezone, "UTC");
    assert_eq!(p.hostname, "zainium");
    assert_eq!(p.dry_run_root, "/tmp/zainium-install-test");
    assert_eq!(p.efi_size_mib, 512);
    assert!(p.dry_run);
    let p = InstallPlan::from_env(&env(&[
        ("ZAINIUM_EFI_SIZE_MIB", "+1024"),
        ("ZAINIUM_HOSTNAME", "box"),
    ]));
    assert_eq!(p.efi_size_mib, "+1024".parse::<u64>().unwrap());
    assert_eq!(p.hostname, "box");
    let p = InstallPlan::from_env(&env(&[("ZAINIUM_EFI_SIZE_MIB", "big")]));
    assert_eq!(p.efi_size_mib, 512);
}

#[test]
fn disk_label_matches_one_decimal_gib_formatting() {
    let gib = 1024u64 * 1024 * 1024;
    let sizes = [
        0,
        1,
        gib,
        gib / 2,
        gib / 20,
        3 * gib / 20,
        gib * 500 + gib / 4,
        8 * gib,
        123_456_789_012,
        u64::MAX,
        (1u64 << 53) + 1,
        1_000_204_886_016,
    ];
    for s in sizes {
        let d = disk("/dev/sda", s, false);
        let expected = format!(
            "{} — {} ({:.1} GiB)",
            d.path,
            d.model,
            s as f64 / (1024.0 * 1024.0 * 1024.0)
        );
        assert_eq!(d.label(), expected, "size {s}");
    }
}

#[test]
fn preflight_refuses_in_order() {
    let mut p = user_plan();
    p.password = "abc".to_string();
    assert_eq!(
        preflight_check(&p, true).unwrap_err(),
        "invalid username/password"
    );
    let mut p = user_plan();
    p.hostname = "  ".to_string();
    assert_eq!(preflight_check(&p, true).unwrap_err(), "hostname required");
    let mut p = user_plan();
    p.dry_run = false;
    assert_eq!(
        preflight_check(&p, true).unwrap_err(),
        "invalid or live target disk"
    );
    p.disk = Some(disk("/dev/sda", 100 << 30, false));
    assert!(preflight_check(&p, false)
        .unwrap_err()
        .starts_with("real install blocked: must run as root"));
    assert!(preflight_check(&p, true).is_ok());
    assert!(preflight_check(&user_plan(), false).is_ok());
}

#[test]
fn preflight_summary_and_missing_assets() {
    let p = user_plan();
    assert_eq!(
        preflight_summary(&p, false, true),
        "preflight: host=zainium user=alizain mode=ExpandSquash dry_run=true os_source=false boot_payload=true"
    );
    assert_eq!(missing_assets_refusal(&vec![]), None);
    assert_eq!(
        missing_assets_refusal(&vec!["a", "b"]).unwrap(),
        "real install blocked; missing assets: a; b"
    );
    assert_eq!(
        bootloader_missing_refusal(&vec!["a", "b"]).unwrap(),
        "cannot finalize bootloader; missing: a, b"
    );
    assert_eq!(bootloader_missing_refusal(&vec![]), None);
}

#[test]
fn partition_target_checks() {
    let mut p = user_plan();
    assert_eq!(check_partition_target(&p).unwrap_err(), "no disk selected");
    p.disk = Some(disk("/dev/sdb", 100 << 30, true));
    assert_eq!(
        check_partition_target(&p).unwrap_err(),
        "refusing to partition live medium"
    );
    p.disk = Some(disk("/dev/sdb", 100 << 30, false));
    p.partition_mode = PartitionMode::Manual;
    assert_eq!(
        check_partition_target(&p).unwrap_err(),
        "manual partition mode not implemented — use whole-disk"
    );
    p.partition_mode = PartitionMode::WholeDisk;
    p.disk = Some(disk("/dev/sdb", (4u64 << 30) - 1, false));
    assert_eq!(
        check_partition_target(&p).unwrap_err(),
        "disk too small (need ≥ 4 GiB)"
    );
    p.disk = Some(disk("/dev/sdb", 0, false));
    assert_eq!(check_partition_target(&p).unwrap().path, "/dev/sdb");
    p.disk = Some(disk("/dev/sdb", 4u64 << 30, false));
    assert!(check_partition_target(&p).is_ok());
}

#[test]
fn disk_job_commands() {
    assert_eq!(sfdisk_script(512), "label: gpt\n,512M,U\n,,L\n");
    assert_eq!(sfdisk_script_path(42), "/tmp/carve-sfdisk-42.script");
    let c = partition_commands("/dev/sda", "/tmp/s");
    assert_eq!(c.wipe.program, "wipefs");
    assert_eq!(c.wipe.args, vec!["-a", "/dev/sda"]);
    assert_eq!(c.write_table.program, "sh");
    assert_eq!(c.write_table.args, vec!["-c", "sfdisk --force /dev/sda < /tmp/s"]);
    assert_eq!(c.settle.args, vec!["settle"]);
    assert_eq!(c.reread.program, "partprobe");
    let f = format_commands("/dev/sda1", "/dev/sda2");
    assert_eq!(f[0].program, "mkfs.vfat");
    assert_eq!(f[0].args, vec!["-F", "32", "-n", "ZAINIUMEFI", "/dev/sda1"]);
    assert_eq!(f[1].args, vec!["-F", "-L", "zainium-root", "/dev/sda2"]);
    let m = mount_commands("/dev/sda2", "/dev/sda1", "/mnt/install", "/mnt/install/efi");
    assert_eq!(m[1].args, vec!["/dev/sda1", "/mnt/install/efi"]);
    let mut p = user_plan();
    p.disk = Some(disk("/dev/loop3", 0, false));
    let u = unmount_commands(&p, "/mnt/install", "/mnt/install/efi", true);
    let progs: Vec<&str> = u.iter().map(|c| c.program).collect();
    assert_eq!(progs, vec!["sync", "umount", "umount", "losetup"]);
    assert_eq!(u[3].args, vec!["-d", "/dev/loop3"]);
    p.disk = Some(disk("/dev/sda", 0, false));
    assert_eq!(unmount_commands(&p, "/r", "/r/efi", false).len(), 2);
}

#[test]
fn dry_run_partitions_are_stubs() {
    let mut p = user_plan();
    assert!(!is_dry_run_stub(&p));
    mark_dry_run_partitions(&mut p);
    assert_eq!(p.efi_part.as_deref(), Some("dry-run-efi"));
    assert_eq!(p.root_part.as_deref(), Some("dry-run-root"));
    assert!(is_dry_run_stub(&p));
    p.dry_run = false;
    assert!(!is_dry_run_stub(&p));
}

#[test]
fn lsblk_output_becomes_disk_candidates() {
    let text = "sda 500107862016 Samsung SSD 860 disk\nsda1 536870912  part\nsr0 1073741312 QEMU DVD-ROM rom\nnvme0n1 1000204886016 WD Blue SN570 disk\nvdb 8589934592 disk\nbad\n";
    let live = vec!["/dev/nvme0n1".to_string()];
    let d = parse_lsblk(text, &live);
    assert_eq!(d.len(), 3);
    assert_eq!(d[0].path, "/dev/sda");
    assert_eq!(d[0].model, "Samsung SSD 860");
    assert_eq!(d[0].size_bytes, 500107862016);
    assert!(!d[0].is_live_medium);
    assert!(d[1].is_live_medium);
    assert_eq!(d[2].model, "disk");
}

#[test]
fn block_devices_normalize_to_whole_disks() {
    assert_eq!(normalize_block_dev("/dev/sda2").as_deref(), Some("/dev/sda"));
    assert_eq!(
        normalize_block_dev(" /dev/nvme0n1p2\n").as_deref(),
        Some("/dev/nvme0n1")
    );
    assert_eq!(normalize_block_dev("/dev/loop0").as_deref(), Some("/dev/loo"));
    assert_eq!(normalize_block_dev("/dev/123").as_deref(), Some("/dev/123"));
    assert_eq!(normalize_block_dev("overlay"), None);
}

#[test]
fn target_root_and_layout_paths() {
    let p = user_plan();
    assert_eq!(target_root(&p, &EnvVars::empty()), "/tmp/zainium-install-test");
    let mut real = user_plan();
    real.dry_run = false;
    assert_eq!(target_root(&real, &EnvVars::empty()), "/mnt/install");
    assert_eq!(
        target_root(&real, &env(&[("ZAINIUM_INSTALL_MOUNT", "/target")])),
        "/target"
    );
    assert_eq!(
        zexlib_registry("/t"),
        "/t/overlayer/zexlib/registry/installed"
    );
    assert_eq!(
        quantra_enabled_dir("/t"),
        "/t/overlayer/syshub/etc/quantra-system/enabled"
    );
}

#[test]
fn deploy_source_choice() {
    let sq = Some("/z/zairoot.img".to_string());
    let ol = Some("/run/live/overlayer".to_string());
    assert!(matches!(
        choose_deploy(InstallMode::ExpandSquash, sq.clone(), ol.clone()),
        Ok(DeployAction::PackedImage(p)) if p == "/z/zairoot.img"
    ));
    assert!(matches!(
        choose_deploy(InstallMode::ExpandSquash, None, ol.clone()),
        Ok(DeployAction::RsyncFallback(_))
    ));
    assert!(matches!(
        choose_deploy(InstallMode::ExpandSquash, None, None),
        Ok(DeployAction::Missing)
    ));
    assert!(choose_deploy(InstallMode::RsyncLiveTree, sq.clone(), None).is_err());
    assert!(matches!(
        choose_deploy(InstallMode::KeepSquash, sq, ol),
        Ok(DeployAction::KeepSquash(_))
    ));
    assert!(deploy_missing(true).is_ok());
    assert!(deploy_missing(false).unwrap_err().starts_with("no OS source"));
    assert_eq!(
        keep_squash_dest("/t", "/media/zairoot.squash"),
        "/t/overlayer/zaisys/zairoot.squash"
    );
}

#[test]
fn quantra_service_enabling() {
    let names = vec!["a".to_string(), "b".to_string()];
    assert_eq!(
        enable_outcome(&names, &[true, false], false).unwrap(),
        "enabled=1 skipped=1"
    );
    assert_eq!(
        enable_outcome(&names, &[false, false], false).unwrap_err(),
        "no Quantra services enabled; missing TOMLs for: a, b"
    );
    assert_eq!(
        enable_outcome(&names, &[false, false], true).unwrap(),
        "enabled=0 skipped=2"
    );
    assert_eq!(etc_value_file("box"), "box\n");
    assert_eq!(
        services_dir_missing("/s", false).unwrap_err(),
        "quantra services dir missing: /s (deploy OS first)"
    );
    assert_eq!(
        services_dir_missing("/s", true).unwrap(),
        "quantra deferred (no service tree)"
    );
}

#[test]
fn privileged_command_outcomes() {
    assert!(run_root_ok("sync", &[], Ok(out(true, Some(0), b"", b""))).is_ok());
    let e = run_root_ok(
        "mkfs.ext4",
        &["-F", "/dev/sda2"],
        Ok(out(false, Some(1), b"", b"no such device")),
    )
    .unwrap_err();
    let args: &[&str] = &["-F", "/dev/sda2"];
    assert_eq!(
        e,
        format!(
            "mkfs.ext4 {:?} failed (status {:?}): no such device",
            args,
            Some(1)
        )
    );
    let e = run_root_ok("x", &[], Ok(out(false, None, b"", b"\xff"))).unwrap_err();
    assert_eq!(e, "x [] failed (status None): \u{fffd}");
    assert_eq!(
        run_root_ok("x", &[], Err("exec x: gone".to_string())).unwrap_err(),
        "exec x: gone"
    );
    assert_eq!(
        run_root_stdout("losetup", Ok(out(true, Some(0), b"/dev/loop7\n", b""))).unwrap(),
        "/dev/loop7\n"
    );
    assert_eq!(
        run_root_stdout("losetup", Ok(out(false, Some(1), b"", b"busy"))).unwrap_err(),
        "losetup failed: busy"
    );
    let r = reboot(true);
    assert_eq!(r.program, "quantra-ctl");
    assert_eq!(r.args, vec!["shutdown", "--reboot"]);
    let r = reboot(false);
    assert_eq!(r.program, "reboot");
    assert!(r.args.is_empty());
}

#[test]
fn root_uuid_resolution_order() {
    let mut p = user_plan();
    p.root_uuid = Some(" abcd-1234 ".to_string());
    let (u, line) = resolve_root_uuid(&p, &EnvVars::empty(), &vec![]).unwrap();
    assert_eq!(u, "abcd-1234");
    assert_eq!(line, "limine: root UUID from install plan (post-format)");
    p.root_uuid = Some("PENDING".to_string());
    let e = env(&[("ZAINIUM_ROOT_UUID", " 1111-2222 ")]);
    let (u, line) = resolve_root_uuid(&p, &e, &vec![]).unwrap();
    assert_eq!(u, "1111-2222");
    assert_eq!(line, "limine: root UUID from ZAINIUM_ROOT_UUID");
    p.root_uuid = None;
    p.root_part = Some("/dev/sda2".to_string());
    p.disk = Some(disk("/dev/sda", 0, false));
    let probes = root_uuid_probes(&p);
    let devs: Vec<(&str, bool)> = probes.iter().map(|(d, x)| (d.as_str(), *x)).collect();
    assert_eq!(
        devs,
        vec![
            ("/dev/sda2", false),
            ("/dev/sda", false),
            ("/dev/sda2", true),
            ("/dev/sdap2", true)
        ]
    );
    let found = vec![None, Some("9999".to_string()), None, None];
    let (u, line) = resolve_root_uuid(&p, &EnvVars::empty(), &found).unwrap();
    assert_eq!(u, "9999");
    assert_eq!(line, "limine: root UUID from blkid /dev/sda");
    assert_eq!(
        resolve_root_uuid(&p, &EnvVars::empty(), &vec![]).unwrap_err(),
        "dry-run: set ZAINIUM_ROOT_UUID when testing install conf substitution"
    );
    p.dry_run = false;
    assert_eq!(
        resolve_root_uuid(&p, &EnvVars::empty(), &vec![None]).unwrap_err(),
        "could not determine root UUID (blkid / ZAINIUM_ROOT_UUID)"
    );
    p.root_part = Some("dry-run-root".to_string());
    p.disk = None;
    assert!(root_uuid_probes(&p).is_empty());
}

#[test]
fn blkid_output_handling() {
    assert_eq!(
        blkid_uuid("/dev/sda2", Ok(out(true, Some(0), b" 1234-ABCD\n", b""))).unwrap(),
        "1234-ABCD"
    );
    assert_eq!(
        blkid_uuid("/dev/sda2", Ok(out(true, Some(0), b"\n", b""))).unwrap_err(),
        "blkid returned empty UUID for /dev/sda2"
    );
    assert_eq!(
        blkid_uuid("/dev/sda2", Ok(out(false, Some(2), b"", b"denied"))).unwrap_err(),
        "blkid failed for /dev/sda2: denied"
    );
    assert_eq!(
        blkid_uuid("/dev/sda2", Err("No such file".to_string())).unwrap_err(),
        "blkid failed to run: No such file"
    );
}

#[test]
fn boot_conf_uuid_and_body() {
    let (u, note) = boot_conf_uuid(false, true, Ok("u-1".to_string())).unwrap();
    assert_eq!((u.as_str(), note), ("u-1", None));
    let (u, note) = boot_conf_uuid(true, false, Err("nope".to_string())).unwrap();
    assert_eq!(u, "00000000-0000-0000-0000-000000000000");
    assert_eq!(
        note.unwrap(),
        "limine: nope — generating preview conf with placeholder UUID (dry-run only)"
    );
    assert_eq!(
        boot_conf_uuid(true, true, Err("nope".to_string())).unwrap_err(),
        "nope"
    );
    assert_eq!(
        boot_conf_uuid(false, false, Err("nope".to_string())).unwrap_err(),
        "nope"
    );

    let cfg = InstallerConfig::from_env(&EnvVars::empty());
    let mut a = AssetReport::default();
    a.kernel = Some("/k/zainix".to_string());
    a.wallpaper = Some("/w.bmp".to_string());
    let body = generate_install_conf(&a, &cfg, "u-1");
    assert!(body.contains("wallpaper: boot():/overlayer/zaisys/limine/wallpaper.bmp\n"));
    assert!(body.contains("    path: boot():/overlayer/zaisys/kernel/zainix\n"));
    assert!(body.contains("cmdline: quiet root=UUID=u-1 rootfstype=ext4\n"));
    assert_eq!(install_conf_body(None, "u-1", &a, &cfg).unwrap(), body);
    assert_eq!(
        install_conf_body(Some("root=UUID=${ROOT_UUID}"), "u-1", &a, &cfg).unwrap(),
        "root=UUID=u-1"
    );
    assert!(install_conf_body(Some("x"), "PENDING", &a, &cfg).is_err());
    let mut none = AssetReport::default();
    none.kernel = None;
    assert!(generate_install_conf(&none, &cfg, "u")
        .contains("path: boot():/overlayer/zaisys/kernel/MISSING-KERNEL\n"));
}

#[test]
fn boot_payload_copy_plan() {
    let mut a = AssetReport::default();
    a.kernel = Some("/live/k/zainix".to_string());
    a.initrd = Some("/live/k/ramfs".to_string());
    a.wallpaper = Some("/live/l/wp.bmp".to_string());
    let c = boot_payload_copies(&a, "/t/efi").unwrap();
    assert_eq!(c.len(), 3);
    assert_eq!(c[0].to, "/t/efi/overlayer/zaisys/kernel/zainix");
    assert_eq!(c[1].to, "/t/efi/overlayer/zaisys/kernel/quantra-ramfs.img");
    assert_eq!(c[2].to, "/t/efi/overlayer/zaisys/limine/wallpaper.bmp");
    assert_eq!(c[1].what, "quantra-ramfs");
    a.kernel = Some("/".to_string());
    assert_eq!(
        boot_payload_copies(&a, "/t/efi").err().unwrap(),
        "kernel path has no filename: /"
    );
    assert!(limine_efi_copy(&a, "/t/efi").is_err());
    a.limine_efi = Some("/l/BOOTX64.EFI".to_string());
    assert_eq!(
        limine_efi_copy(&a, "/t/efi").unwrap().to,
        "/t/efi/EFI/BOOT/BOOTX64.EFI"
    );
}

#[test]
fn the_recorded_plan_has_no_password() {
    let p = user_plan();
    let r = p.redacted();
    assert!(r.password.is_empty());
    assert_eq!(r.username, p.username);
    assert_eq!(r.hostname, p.hostname);
    assert_eq!(r.dry_run_root, p.dry_run_root);
}

#[test]
fn elevate_is_found_in_order_and_used_when_not_root() {
    let mut snap = FsSnapshot::new();
    assert_eq!(elevate_bin(&EnvVars::empty(), &snap, false), None);
    assert_eq!(elevate_bin(&EnvVars::empty(), &snap, true).as_deref(), Some("elevate"));
    snap.files.push("/sbin/elevate".to_string());
    assert_eq!(elevate_bin(&EnvVars::empty(), &snap, false).as_deref(), Some("/sbin/elevate"));
    snap.files.push("/bin/elevate".to_string());
    assert_eq!(elevate_bin(&EnvVars::empty(), &snap, false).as_deref(), Some("/bin/elevate"));
    let e = env(&[("ZAINIUM_ELEVATE", "/opt/el")]);
    assert_eq!(elevate_bin(&e, &snap, true).as_deref(), Some("elevate"));
    snap.files.push("/opt/el".to_string());
    assert_eq!(elevate_bin(&e, &snap, true).as_deref(), Some("/opt/el"));
    assert_eq!(elevate_probes(&e)[0], "/opt/el");
    assert_eq!(elevate_probes(&EnvVars::empty()).len(), 3);

    let (p, a) = root_invocation("mount", &["/dev/sda2", "/mnt"], true, None).unwrap();
    assert_eq!((p.as_str(), a), ("mount", vec!["/dev/sda2".to_string(), "/mnt".to_string()]));
    let (p, a) =
        root_invocation("mount", &["/dev/sda2"], false, Some("/bin/elevate".to_string())).unwrap();
    assert_eq!(p, "/bin/elevate");
    assert_eq!(a, vec!["mount", "/dev/sda2"]);
    assert_eq!(
        root_invocation("sync", &[], false, None).unwrap_err(),
        "not root and `elevate` not found (install Zainium elevate — no sudo on this OS)"
    );
}

#[test]
fn deploy_command_lines() {
    let c = expand_image_command("/z/zairoot.img", "/mnt/install");
    assert_eq!(c.program, "fsck.erofs");
    assert_eq!(c.args, vec!["--extract=/mnt/install", "--overwrite", "/z/zairoot.img"]);
    let c = expand_image_command("/z/zairoot.squashfs", "/mnt/install");
    assert_eq!(c.program, "unsquashfs");
    assert_eq!(c.args, vec!["-f", "-d", "/mnt/install", "/z/zairoot.squashfs"]);
    let c = rsync_command("/run/live/overlayer", "/mnt/install/overlayer");
    assert_eq!(
        c.args,
        vec!["-aHAX", "--info=progress2", "/run/live/overlayer/", "/mnt/install/overlayer/"]
    );
    let c = lock_command("/t/k/zainix");
    assert_eq!((c.program, c.args), ("chattr", vec!["+i".to_string(), "/t/k/zainix".to_string()]));
}

#[test]
fn dummy_uuids_are_recognised() {
    assert!(is_dummy_uuid("00000000-0000-0000-0000-000000000000"));
    assert!(is_dummy_uuid("abcd00000000ef"));
    assert!(is_dummy_uuid("REPLACE-WITH-ROOT-UUID"));
    assert!(is_dummy_uuid("PENDING"));
    assert!(is_dummy_uuid("DuMmY"));
    assert!(!is_dummy_uuid("pending"));
    assert!(!is_dummy_uuid("abcdef12-3456-7890-abcd-ef1234567890"));
}
