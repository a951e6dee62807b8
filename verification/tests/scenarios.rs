use carve::autoinstall::pick_disk;
use carve::backend::assets::{image_format, AssetReport};
use carve::backend::disk::partition_path;
use carve::backend::limine::apply_install_placeholders;
use carve::model::install_plan::{valid_username, DiskCandidate, InstallPlan};
use carve::env::EnvVars;
use carve::snapshot::FsSnapshot;
use carve::tzdata::{
    all_zones, available, is_skipped_top, regions, standalone_zones, zone_exists, zone_path,
    zones_in_region,
};

fn disk(path: &str, gib: u64) -> DiskCandidate {
    DiskCandidate {
        path: path.to_string(),
        model: "test".to_string(),
        size_bytes: gib * 1024 * 1024 * 1024,
        is_live_medium: false,
    }
}

#[test]
fn pick_disk_explicit_path_match_and_no_match() {
    let candidates = vec![disk("/dev/sda", 100), disk("/dev/sdb", 200)];
    assert_eq!(
        pick_disk(candidates.clone(), "/dev/sdb", false)
            .unwrap()
            .unwrap()
            .path,
        "/dev/sdb"
    );
    assert!(pick_disk(candidates, "/dev/nvme0n1", false).is_err());
}

#[test]
fn pick_disk_only_requires_exactly_one_candidate() {
    assert!(pick_disk(vec![], "only", false).is_err());
    assert_eq!(
        pick_disk(vec![disk("/dev/sda", 100)], "only", false)
            .unwrap()
            .unwrap()
            .path,
        "/dev/sda"
    );
    assert!(pick_disk(vec![disk("/dev/sda", 100), disk("/dev/sdb", 200)], "only", false).is_err());
}

#[test]
fn pick_disk_largest_picks_max_size() {
    let candidates = vec![disk("/dev/sda", 100), disk("/dev/sdb", 500), disk("/dev/sdc", 250)];
    assert_eq!(
        pick_disk(candidates, "largest", false).unwrap().unwrap().path,
        "/dev/sdb"
    );
}

#[test]
fn pick_disk_unknown_selector_falls_back_to_largest() {
    let candidates = vec![disk("/dev/sda", 100), disk("/dev/sdb", 500)];
    assert_eq!(
        pick_disk(candidates, "bogus", false).unwrap().unwrap().path,
        "/dev/sdb"
    );
}

#[test]
fn pick_disk_empty_ok_under_dry_run_error_otherwise() {
    assert_eq!(pick_disk(vec![], "largest", true).unwrap(), None);
    assert!(pick_disk(vec![], "largest", false).is_err());
}

#[test]
fn image_format_detects_erofs_by_extension() {
    assert_eq!(image_format(Some("zairoot.img")), "erofs");
    assert_eq!(image_format(Some("/a/b/zainium.img")), "erofs");
}

#[test]
fn image_format_defaults_to_squashfs() {
    assert_eq!(image_format(Some("zairoot.squash")), "squashfs");
    assert_eq!(image_format(Some("zairoot.squashfs")), "squashfs");
    assert_eq!(image_format(None), "squashfs");
}

#[test]
fn asset_report_squash_format_matches_discovered_path() {
    let mut report = AssetReport::default();
    report.squash = Some("zaisys/zairoot.img".to_string());
    assert_eq!(report.squash_format(), "erofs");
}

#[test]
fn partition_naming_scsi_and_nvme() {
    assert_eq!(partition_path("/dev/sda", 1), "/dev/sda1");
    assert_eq!(partition_path("/dev/sda", 2), "/dev/sda2");
    assert_eq!(partition_path("/dev/nvme0n1", 1), "/dev/nvme0n1p1");
    assert_eq!(partition_path("/dev/mmcblk0", 2), "/dev/mmcblk0p2");
    assert_eq!(partition_path("/dev/loop0", 1), "/dev/loop0p1");
}

#[test]
fn substitute_only_placeholders_no_menu_invention() {
    let t = "timeout: 5\n/My Entry\n    cmdline: root=UUID=${ROOT_UUID} rootfstype=${ROOT_FSTYPE}\n";
    let out = apply_install_placeholders(t, "abcdef12-3456-7890-abcd-ef1234567890", "ext4").unwrap();
    assert!(out.contains("root=UUID=abcdef12-3456-7890-abcd-ef1234567890"));
    assert!(out.contains("rootfstype=ext4"));
    assert!(out.contains("/My Entry"));
    assert!(!out.contains("Try Zainium"));
    assert!(!out.contains("${ROOT_UUID}"));
}

#[test]
fn rejects_dummy_uuid() {
    let t = "root=UUID=${ROOT_UUID}\n";
    assert!(apply_install_placeholders(t, "PENDING", "ext4").is_err());
    assert!(apply_install_placeholders(t, "00000000-0000-0000-0000-000000000000", "ext4").is_err());
}

#[test]
fn leaves_file_without_placeholders_intact() {
    let t = "# my hand-written conf\ntimeout: 3\n";
    let out = apply_install_placeholders(t, "abcdef12-3456-7890-abcd-ef1234567890", "xfs").unwrap();
    assert_eq!(out, t);
}

#[test]
fn valid_username_accepts_lowercase_letters_digits_dash_underscore() {
    assert!(valid_username("alizain"));
    assert!(valid_username("a"));
    assert!(valid_username("ali-zain_2"));
}

#[test]
fn valid_username_rejects_empty_uppercase_digit_start_and_bad_chars() {
    assert!(!valid_username(""));
    assert!(!valid_username("Alizain"));
    assert!(!valid_username("2ali"));
    assert!(!valid_username("ali zain"));
    assert!(!valid_username("ali.zain"));
}

#[test]
fn validate_user_enforces_password_length() {
    let mut plan = InstallPlan {
        username: "alizain".into(),
        ..InstallPlan::default()
    };
    plan.password = "abc".into();
    assert!(plan.validate_user().is_err());
    plan.password = "abcd".into();
    assert!(plan.validate_user().is_ok());
}

#[test]
fn skip_list_excludes_non_region_dirs() {
    assert!(is_skipped_top("posix"));
    assert!(is_skipped_top("right"));
    assert!(is_skipped_top("Factory"));
}

#[test]
fn zone_exists_rejects_path_traversal() {
    // Refused by name, whatever is on disk at that path.
    assert!(!zone_exists("../../etc/passwd", true));
    assert!(!zone_exists("", true));
}

/// The fixture tree: `Asia/Karachi`, `America/Argentina/Buenos_Aires`,
/// `UTC`, and a `posix` directory that must be skipped, under the root
/// `ZAINIUM_ZONEINFO` names.
#[test]
fn walks_a_fake_tzdata_tree_honestly() {
    let root = "/tmp/carve-tz-test";
    let env = EnvVars {
        vars: vec![("ZAINIUM_ZONEINFO".to_string(), root.to_string())],
    };
    let mut snap = FsSnapshot::new();
    for d in ["", "/Asia", "/America", "/America/Argentina", "/posix"] {
        snap.dirs.push(format!("{root}{d}"));
    }
    for f in ["/Asia/Karachi", "/America/Argentina/Buenos_Aires", "/UTC"] {
        snap.files.push(format!("{root}{f}"));
    }
    let exists = |zone: &str| zone_exists(zone, snap.is_file(&zone_path(&env, zone)));

    assert!(available(&env, &snap));

    let top_dirs: Vec<String> = ["Asia", "America", "posix"].iter().map(|s| s.to_string()).collect();
    let regions = regions(&top_dirs);
    assert!(regions.contains(&"Asia".to_string()));
    assert!(regions.contains(&"America".to_string()));
    assert!(!regions.contains(&"posix".to_string()));

    let asia = zones_in_region(&env, &snap, "Asia");
    assert_eq!(asia, vec!["Karachi".to_string()]);
    let america = zones_in_region(&env, &snap, "America");
    assert_eq!(america, vec!["Argentina/Buenos_Aires".to_string()]);

    let standalone = standalone_zones(&vec!["UTC".to_string()]);
    assert!(standalone.contains(&"UTC".to_string()));

    assert!(exists("Asia/Karachi"));
    assert!(exists("America/Argentina/Buenos_Aires"));
    assert!(exists("UTC"));
    assert!(!exists("Asia/Nowhere"));

    let by_region = vec![("Asia".to_string(), asia), ("America".to_string(), america)];
    let all = all_zones(&standalone, &by_region);
    assert!(all.contains(&"Asia/Karachi".to_string()));
    assert!(all.contains(&"America/Argentina/Buenos_Aires".to_string()));
}
