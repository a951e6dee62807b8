use carve::autoinstall::{
    default_config_path, plan_from_config, resolve_disk, resolve_password, should_reboot,
    DiskCfg, FileConfig, InstallCfg, SystemCfg, UserCfg,
};
use carve::backend::config::{env_list, InstallerConfig};
use carve::backend::user::{
    ensure_wheel_group, pam_service_stacks, passwd_line, policy_wheel_addition, shadow_line,
    upsert_line, wheel_line,
};
use carve::env::EnvVars;
use carve::snapshot::FsSnapshot;
use carve::model::install_plan::DiskCandidate;
use carve::model::progress::{
    job_kind, job_line, unknown_job_error, InstallJob, JobKind, JobStatus, ProgressState,
};
use carve::text::{parse_u64, sort_strings};
use carve::tzdata::{all_zones, regions, standalone_zones, zone_path, zones_in_region};
use carve::wizard::{
    check_password_entry, city_choices, is_erase_confirmation, parse_xkb_layouts, PasswordEntry,
    Screen,
};

fn env(pairs: &[(&str, &str)]) -> EnvVars {
    EnvVars {
        vars: pairs
            .iter()
            .map(|(k, v)| (k.to_string(), v.to_string()))
            .collect(),
    }
}

fn strings(v: &[&str]) -> Vec<String> {
    v.iter().map(|s| s.to_string()).collect()
}

#[test]
fn pipeline_starts_pending_in_order() {
    let p = ProgressState::pipeline();
    let ids: Vec<&str> = p.jobs.iter().map(|j| j.id).collect();
    assert_eq!(
        ids,
        vec![
            "preflight", "partition", "format", "mount", "seed", "deploy", "user", "quantra",
            "limine", "sync"
        ]
    );
    assert!(p.jobs.iter().all(|j| j.status == JobStatus::Pending));
    assert_eq!(p.jobs[8].label_key, "job-limine");
    assert!(p.jobs.iter().all(|j| job_kind(j.id).is_some()));
    assert!(p.log.is_empty() && !p.failed && !p.finished && p.steps_done == 0);
    assert_eq!(p.last_active_job(), None);
}

#[test]
fn a_successful_run_marks_every_job_done() {
    let mut p = ProgressState::pipeline();
    for i in 0..p.jobs.len() {
        p.begin_job(i);
        assert_eq!(p.jobs[i].status, JobStatus::Running);
        assert_eq!(p.steps_done, i);
        assert_eq!(p.last_active_job(), Some(i));
        assert!(p.end_job(i, Ok(format!("ok {i}"))).is_ok());
        assert_eq!(p.steps_done, i + 1);
    }
    p.finish();
    assert!(p.finished && !p.failed);
    assert!(p.jobs.iter().all(|j| j.status == JobStatus::Done));
    assert_eq!(p.jobs[3].detail, "ok 3");
    assert_eq!(p.log, "Install finished successfully");
}

#[test]
fn a_failed_job_stops_the_run_and_is_logged() {
    let mut p = ProgressState::pipeline();
    p.append_log("preflight: ok");
    p.begin_job(0);
    assert!(p.end_job(0, Ok("ok".to_string())).is_ok());
    p.begin_job(1);
    let e = p.end_job(1, Err("disk gone".to_string())).unwrap_err();
    assert_eq!(e, "disk gone");
    assert!(p.failed && !p.finished);
    assert_eq!(p.jobs[1].status, JobStatus::Failed);
    assert_eq!(p.jobs[1].detail, "disk gone");
    assert_eq!(p.jobs[2].status, JobStatus::Pending);
    assert_eq!(p.log, "preflight: ok\nFAIL partition: disk gone");
}

#[test]
fn job_dispatch_and_progress_lines() {
    assert_eq!(job_kind("limine"), Some(JobKind::Limine));
    assert_eq!(job_kind("sync"), Some(JobKind::Sync));
    assert_eq!(job_kind("bogus"), None);
    assert_eq!(unknown_job_error("bogus"), "unknown job bogus");
    let mut j = InstallJob::new("seed", "job-seed");
    j.status = JobStatus::Done;
    j.detail = "seed ok".to_string();
    assert_eq!(job_line(&j), format!("✓ {:<10} {}", "seed", "seed ok"));
    j.status = JobStatus::Running;
    j.id = "a-very-long-id";
    assert_eq!(job_line(&j), format!("… {:<10} {}", "a-very-long-id", "seed ok"));
}

#[test]
fn installer_config_from_environment() {
    let c = InstallerConfig::from_env(&EnvVars::empty());
    assert_eq!(c.install_mount, "/mnt/install");
    assert_eq!(c.root_fstype, "ext4");
    assert_eq!(
        c.quantra_enable,
        strings(&["quantra-netd", "quantra-net", "quantra-logind", "console-shell", "graphical-launcher"])
    );
    assert!(c.zairoot.is_none());
    let e = env(&[
        ("ZAINIUM_QUANTRA_ENABLE", " a, ,b ,c"),
        ("ZAINIUM_ROOT_FSTYPE", ""),
        ("ZAINIUM_SQUASH", "/s.img"),
    ]);
    let c = InstallerConfig::from_env(&e);
    assert_eq!(c.quantra_enable, strings(&["a", "b", "c"]));
    assert_eq!(c.root_fstype, "ext4");
    assert_eq!(c.squash.as_deref(), Some("/s.img"));
    assert_eq!(env_list(&e, "MISSING"), None);
    assert_eq!(
        env_list(&env(&[("L", ",,")]), "L"),
        Some(Vec::<String>::new())
    );
    let empty_list = InstallerConfig::from_env(&env(&[("ZAINIUM_QUANTRA_ENABLE", "")]));
    assert!(empty_list.quantra_enable.is_empty());
    let blank_list = InstallerConfig::from_env(&env(&[("ZAINIUM_QUANTRA_ENABLE", " , ")]));
    assert!(blank_list.quantra_enable.is_empty());
    let first = env(&[("K", "1"), ("K", "2")]);
    assert_eq!(first.get("K").as_deref(), Some("1"));
}

fn cfg(tz: Option<&str>, password: Option<&str>, password_env: Option<&str>) -> FileConfig {
    FileConfig {
        system: SystemCfg {
            locale: Some("ur_PK.UTF-8".to_string()),
            keyboard: None,
            timezone: tz.map(str::to_string),
            hostname: Some("host1".to_string()),
        },
        user: UserCfg {
            full_name: "Ali Zain".to_string(),
            username: "alizain".to_string(),
            password: password.map(str::to_string),
            password_env: password_env.map(str::to_string),
        },
        disk: DiskCfg { select: None },
        install: InstallCfg {
            dry_run: None,
            reboot_after: Some(true),
        },
    }
}

#[test]
fn autoinstall_config_becomes_a_plan() {
    let e = env(&[("CARVE_PASSWORD", "s3cret"), ("ZAINIUM_KEYBOARD", "de")]);
    let p = plan_from_config(cfg(Some("Asia/Karachi"), None, Some("CARVE_PASSWORD")), &e, true)
        .unwrap();
    assert_eq!(p.locale, "ur_PK.UTF-8");
    assert_eq!(p.keyboard, "de");
    assert_eq!(p.timezone, "Asia/Karachi");
    assert_eq!(p.hostname, "host1");
    assert_eq!(p.password, "s3cret");
    assert!(!p.dry_run);
    assert!(p.disk.is_none());
    assert!(should_reboot(p.dry_run, Some(true)));
    assert!(!should_reboot(true, Some(true)));
    assert!(!should_reboot(false, None));
    assert_eq!(default_config_path(), "/overlayer/zaisys/carve/autoinstall.toml");
}

#[test]
fn autoinstall_config_errors() {
    let e = EnvVars::empty();
    assert_eq!(
        plan_from_config(cfg(Some("Mars/Base"), Some("pw12"), None), &e, false).unwrap_err(),
        "config error: timezone 'Mars/Base' isn't a real zone under /usr/share/zoneinfo (or ZAINIUM_ZONEINFO) on this medium — refusing to guess"
    );
    assert!(plan_from_config(cfg(Some("../etc/passwd"), Some("pw12"), None), &e, true).is_err());
    assert_eq!(
        plan_from_config(cfg(None, None, Some("NOPE")), &e, true).unwrap_err(),
        "config error: password_env names 'NOPE' but that variable isn't set"
    );
    assert_eq!(
        plan_from_config(cfg(None, None, None), &e, true).unwrap_err(),
        "config error: user.password or user.password_env is required"
    );
    assert_eq!(
        plan_from_config(cfg(None, Some("abc"), None), &e, true).unwrap_err(),
        "config error: invalid error-username (username: lowercase [a-z0-9_-], starts with a letter; password: 4+ chars)"
    );
    assert_eq!(
        resolve_password(Some("direct".to_string()), Some("P".to_string()), &env(&[("P", "envpw")]))
            .unwrap(),
        "envpw"
    );
}

#[test]
fn resolve_disk_drops_the_live_medium() {
    let d = |p: &str, g: u64, live: bool| DiskCandidate {
        path: p.to_string(),
        model: "m".to_string(),
        size_bytes: g << 30,
        is_live_medium: live,
    };
    let disks = vec![d("/dev/sda", 900, true), d("/dev/sdb", 100, false)];
    assert_eq!(
        resolve_disk(disks.clone(), None, false).unwrap().unwrap().path,
        "/dev/sdb"
    );
    assert!(resolve_disk(disks.clone(), Some("/dev/sda"), false).is_err());
    let tie = vec![d("/dev/sda", 100, false), d("/dev/sdb", 100, false)];
    let largest = tie.iter().max_by_key(|x| x.size_bytes).unwrap().path.clone();
    assert_eq!(
        resolve_disk(tie, Some("largest"), false).unwrap().unwrap().path,
        largest
    );
}

#[test]
fn account_files() {
    assert_eq!(
        passwd_line("ali", "Ali Zain"),
        "ali:x:1000:1000:Ali Zain:/home/ali:/bin/bash\n"
    );
    assert_eq!(shadow_line("ali", "$argon2id$h"), "ali:$argon2id$h:20000:0:99999:7:::\n");
    assert_eq!(wheel_line("ali"), "wheel:x:10:ali\n");
    let line = passwd_line("ali", "A");
    assert_eq!(
        upsert_line("root:x:0:0:root:/root:/bin/bash\n", "ali", &line),
        format!("root:x:0:0:root:/root:/bin/bash\n{line}")
    );
    assert_eq!(
        upsert_line("root:x\nali:old\nbob:y", "ali", "ali:new\n"),
        "root:x\nali:new\nbob:y\n"
    );
    assert_eq!(upsert_line("", "ali", "ali:new\n"), "ali:new\n");
    assert_eq!(upsert_line("root:x", "ali", "ali:new\n"), "root:xali:new\n");
    assert_eq!(
        ensure_wheel_group("root:x:0:\nwheel:x:10:\n", "ali").unwrap(),
        "root:x:0:\nwheel:x:10:ali\n"
    );
    assert_eq!(
        ensure_wheel_group("wheel:x:10:bob\n", "ali").unwrap(),
        "wheel:x:10:bob,ali\n"
    );
    assert_eq!(ensure_wheel_group("wheel:x:10:ali\n", "ali"), None);
    assert_eq!(
        ensure_wheel_group("root:x:0:\n", "ali").unwrap(),
        "root:x:0:\nwheel:x:10:ali\n"
    );
    assert_eq!(policy_wheel_addition("%wheel ALL"), None);
    assert_eq!(
        policy_wheel_addition("root ALL"),
        Some("\n%wheel ALL=(ALL:ALL) ALL\n")
    );
    let stacks = pam_service_stacks();
    assert_eq!(stacks.len(), 3);
    assert_eq!(stacks[1].0, "login.toml");
    assert!(stacks[1].1.starts_with(
        "[service]\nname = \"login\"\ndescription = \"console/greeter login auth (no pam.d)\"\n"
    ));
    assert!(stacks[2].1.ends_with("[[session]]\ncontrol = \"required\"\nmodule = \"unix\"\n"));
}

#[test]
fn wizard_screens_and_checks() {
    let mut s = Screen::new();
    let first = s.header("Welcome");
    assert!(first.starts_with("╔"));
    assert!(first.ends_with(&format!("carve · Step 1/9 · Welcome\n{}\n\n", "─".repeat(46))));
    let second = s.header("Network");
    assert_eq!(
        second,
        format!("carve · Step 2/9 · Network\n{}\n\n", "─".repeat(46))
    );
    assert_eq!(check_password_entry("abc", "abc"), PasswordEntry::TooShort);
    assert_eq!(check_password_entry("abcd", "abce"), PasswordEntry::Mismatch);
    assert_eq!(check_password_entry("abcd", "abcd"), PasswordEntry::Accepted);
    assert_eq!(check_password_entry("éé", "éé"), PasswordEntry::Accepted);
    assert!(is_erase_confirmation("  ERASE \n"));
    assert!(!is_erase_confirmation("erase"));
    let text = "! model\n  pc105 Generic\n! layout\n  us English (US)\n  de German\n\n! variant\n  dvorak us: Dvorak\n";
    assert_eq!(parse_xkb_layouts(text), strings(&["us", "de"]));
    assert_eq!(
        city_choices(&strings(&["Karachi", "Jerusalem", "Tel_Aviv", "Tokyo"])),
        strings(&["Karachi", "Tokyo"])
    );
}

#[test]
fn timezone_lists_are_sorted_and_filtered() {
    let dirs = strings(&["posix", "Europe", "Asia", "Etc", "right", "America"]);
    assert_eq!(regions(&dirs), strings(&["America", "Asia", "Europe"]));
    assert_eq!(standalone_zones(&strings(&["UTC", "Japan", "GMT"])), strings(&["GMT", "Japan", "UTC"]));
    let mut tree = FsSnapshot::new();
    for f in ["/usr/share/zoneinfo/Asia/Karachi", "/usr/share/zoneinfo/Asia/Argentina/Buenos_Aires", "/usr/share/zoneinfo/Asiatic"] {
        tree.files.push(f.to_string());
    }
    assert_eq!(
        zones_in_region(&EnvVars::empty(), &tree, "Asia"),
        strings(&["Argentina/Buenos_Aires", "Karachi"])
    );
    assert!(zones_in_region(&EnvVars::empty(), &tree, "Europe").is_empty());
    let by_region = vec![
        ("Asia".to_string(), strings(&["Karachi"])),
        ("America".to_string(), strings(&["Argentina/Buenos_Aires"])),
    ];
    assert_eq!(
        all_zones(&strings(&["UTC"]), &by_region),
        strings(&["America/Argentina/Buenos_Aires", "Asia/Karachi", "UTC"])
    );
    assert_eq!(zone_path(&EnvVars::empty(), "Asia/Karachi"), "/usr/share/zoneinfo/Asia/Karachi");
    assert_eq!(
        zone_path(&env(&[("ZAINIUM_ZONEINFO", "/z")]), "UTC"),
        "/z/UTC"
    );
}

#[test]
fn numbers_and_sorting_follow_std() {
    for s in ["0", "42", "+7", "18446744073709551615", "18446744073709551616", "", "+", "-1", "1 "] {
        assert_eq!(parse_u64(s), s.parse::<u64>().ok(), "{s:?}");
    }
    let v = strings(&["b", "a", "B", "ä", "aa", ""]);
    let mut expected = v.clone();
    expected.sort();
    assert_eq!(sort_strings(&v), expected);
}

#[test]
fn writing_an_account_line_twice_changes_nothing_more() {
    let line = passwd_line("ali", "Ali");
    for existing in ["", "root:x:0:0:root:/root:/bin/bash\n", "ali:old\nbob:y\n"] {
        let once = upsert_line(existing, "ali", &line);
        assert_eq!(upsert_line(&once, "ali", &line), once, "{existing:?}");
        assert_eq!(once.lines().filter(|l| l.starts_with("ali:")).count(), 1);
    }
}

#[test]
fn the_new_user_ends_up_in_wheel() {
    for existing in ["", "root:x:0:\n", "root:x:0:\nwheel:x:10:\n", "wheel:x:10:bob\nusers:x:100:\n"] {
        let after = ensure_wheel_group(existing, "ali").unwrap_or_else(|| existing.to_string());
        let wheel = after.lines().find(|l| l.starts_with("wheel:")).unwrap();
        assert!(wheel.contains("ali"), "{existing:?} -> {after:?}");
    }
}
