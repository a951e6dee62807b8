use carve::backend::assets::{discover, discovery_probes, AssetReport};
use carve::backend::config::InstallerConfig;
use carve::backend::limine::{
    find_install_limine_conf, find_live_limine_conf, install_limine_conf_candidates,
    live_limine_conf_candidates,
};
use carve::backend::paths::join_path;
use carve::env::EnvVars;
use carve::snapshot::FsSnapshot;
use carve::backend::deploy::deploy_sources;
use carve::model::install_plan::{utf8_len_at_least, InstallPlan};
use carve::tzdata::{available, zone_names_under};

fn env(pairs: &[(&str, &str)]) -> EnvVars {
    EnvVars {
        vars: pairs
            .iter()
            .map(|(k, v)| (k.to_string(), v.to_string()))
            .collect(),
    }
}

fn snap(files: &[&str], dirs: &[&str], listings: &[(&str, &[&str])]) -> FsSnapshot {
    let mut present: Vec<String> = files.iter().map(|s| s.to_string()).collect();
    present.extend(dirs.iter().map(|s| s.to_string()));
    FsSnapshot {
        files: files.iter().map(|s| s.to_string()).collect(),
        dirs: dirs.iter().map(|s| s.to_string()).collect(),
        present,
        listings: listings
            .iter()
            .map(|(d, es)| (d.to_string(), es.iter().map(|e| e.to_string()).collect()))
            .collect(),
    }
}

/// A live medium laid out under `/run/live/overlayer`.
fn live_medium() -> FsSnapshot {
    snap(
        &[
            "/run/live/overlayer/syshub/engine/quantra",
            "/run/live/overlayer/zaisys/kernel/zainix",
            "/run/live/overlayer/zaisys/kernel/quantra-ramfs.img",
            "/run/live/overlayer/zaisys/limine/BOOTX64.EFI",
            "/run/live/overlayer/zaisys/limine/limine.conf",
            "/run/live/overlayer/zaisys/limine/limine.install.conf",
            "/run/live/overlayer/zaisys/limine/wallpaper.bmp",
            "/run/live/overlayer/zaisys/zairoot.img",
        ],
        &[
            "/run/live",
            "/run/live/overlayer",
            "/run/live/overlayer/syshub",
            "/run/live/overlayer/zaisys",
            "/run/live/overlayer/zaisys/kernel",
            "/run/live/overlayer/zaisys/limine",
        ],
        &[
            (
                "/run/live/overlayer/zaisys/kernel",
                &["quantra-ramfs.img", "zainix"],
            ),
            (
                "/run/live/overlayer/zaisys/limine",
                &["BOOTX64.EFI", "limine.conf", "limine.install.conf", "wallpaper.bmp"],
            ),
        ],
    )
}

#[test]
fn discover_finds_a_live_medium_layout() {
    let e = EnvVars::empty();
    let cfg = InstallerConfig::from_env(&e);
    let r = discover(&cfg, &e, &live_medium());
    assert_eq!(r.overlayer.as_deref(), Some("/run/live/overlayer"));
    assert_eq!(r.syshub.as_deref(), Some("/run/live/overlayer/syshub"));
    assert_eq!(r.zaisys.as_deref(), Some("/run/live/overlayer/zaisys"));
    assert_eq!(r.kernel.as_deref(), Some("/run/live/overlayer/zaisys/kernel/zainix"));
    assert_eq!(
        r.initrd.as_deref(),
        Some("/run/live/overlayer/zaisys/kernel/quantra-ramfs.img")
    );
    assert_eq!(
        r.limine_efi.as_deref(),
        Some("/run/live/overlayer/zaisys/limine/BOOTX64.EFI")
    );
    assert_eq!(
        r.limine_live_conf.as_deref(),
        Some("/run/live/overlayer/zaisys/limine/limine.conf")
    );
    assert_eq!(
        r.limine_install_conf.as_deref(),
        Some("/run/live/overlayer/zaisys/limine/limine.install.conf")
    );
    assert_eq!(
        r.wallpaper.as_deref(),
        Some("/run/live/overlayer/zaisys/limine/wallpaper.bmp")
    );
    assert_eq!(r.squash.as_deref(), Some("/run/live/overlayer/zaisys/zairoot.img"));
    assert_eq!(r.quantra.as_deref(), Some("/run/live/overlayer/syshub/engine/quantra"));
    assert!(r.notes.is_empty(), "{:?}", r.notes);
    assert!(r.missing_for_real_install(true).is_empty());
}

#[test]
fn discover_on_an_empty_host_reports_everything_missing() {
    let e = EnvVars::empty();
    let cfg = InstallerConfig::from_env(&e);
    let r = discover(&cfg, &e, &FsSnapshot::new());
    assert!(r.overlayer.is_none() && r.kernel.is_none() && r.squash.is_none());
    assert_eq!(r.notes.len(), 7);
    assert_eq!(
        r.notes[0],
        "kernel not found — add under overlayer/zaisys/kernel/ or set ZAINIUM_KERNEL"
    );
    assert_eq!(
        r.notes[6],
        "no OS source tree yet — set ZAINIUM_OVERLAYER or ZAINIUM_SQUASH for deploy"
    );
    assert_eq!(r.missing_for_real_install(false).len(), 4);
}

#[test]
fn discover_prefers_explicit_settings_that_exist() {
    let e = env(&[
        ("ZAINIUM_KERNEL", "/boot/my-kernel"),
        ("ZAINIUM_SQUASH", "/images/root.squashfs"),
    ]);
    let cfg = InstallerConfig::from_env(&e);
    let mut s = live_medium();
    s.files.push("/boot/my-kernel".to_string());
    s.files.push("/images/root.squashfs".to_string());
    let r = discover(&cfg, &e, &s);
    assert_eq!(r.kernel.as_deref(), Some("/boot/my-kernel"));
    assert_eq!(r.squash.as_deref(), Some("/images/root.squashfs"));
    assert_eq!(r.squash_format(), "squashfs");
}

#[test]
fn discover_ignores_explicit_settings_that_do_not_exist() {
    let e = env(&[("ZAINIUM_KERNEL", "/boot/absent")]);
    let cfg = InstallerConfig::from_env(&e);
    let r = discover(&cfg, &e, &live_medium());
    assert_eq!(r.kernel.as_deref(), Some("/run/live/overlayer/zaisys/kernel/zainix"));
}

#[test]
fn discover_searches_the_overlayer_parent() {
    let e = env(&[("ZAINIUM_OVERLAYER", "/media/x/overlayer")]);
    let cfg = InstallerConfig::from_env(&e);
    let s = snap(
        &["/media/x/zairoot.squash"],
        &["/media/x", "/media/x/overlayer", "/media/x/overlayer/syshub"],
        &[],
    );
    let r = discover(&cfg, &e, &s);
    assert_eq!(r.overlayer.as_deref(), Some("/media/x/overlayer"));
    assert_eq!(r.syshub.as_deref(), Some("/media/x/overlayer/syshub"));
    assert_eq!(r.squash.as_deref(), Some("/media/x/zairoot.squash"));
}

#[test]
fn discover_falls_back_to_any_efi_file_in_the_limine_dir() {
    let e = EnvVars::empty();
    let cfg = InstallerConfig::from_env(&e);
    let s = snap(
        &["/live/overlayer/zaisys/limine/Limine-X64.EFI"],
        &["/live", "/live/overlayer/zaisys", "/live/overlayer/zaisys/limine"],
        &[("/live/overlayer/zaisys/limine", &["notes.txt", "Limine-X64.EFI"])],
    );
    let r = discover(&cfg, &e, &s);
    assert_eq!(
        r.limine_efi.as_deref(),
        Some("/live/overlayer/zaisys/limine/Limine-X64.EFI")
    );
}

#[test]
fn discovery_probes_cover_what_discover_reads() {
    let e = EnvVars::empty();
    let cfg = InstallerConfig::from_env(&e);
    let p = discovery_probes(&cfg, &e);
    for path in [
        "/run/live",
        "/run/live/overlayer/syshub",
        "/run/live/overlayer/zaisys/limine/BOOTX64.EFI",
        "/run/live/overlayer/zaisys/zairoot.img",
        "./zairoot.squash",
    ] {
        assert!(p.paths.iter().any(|q| q == path), "{path} not probed");
    }
    assert!(p
        .listed
        .iter()
        .any(|d| d == "/run/live/overlayer/zaisys/kernel"));
    assert_eq!(p.listed.len(), 5 * 4);
}

#[test]
fn limine_confs_are_found_where_prepared() {
    let e = EnvVars::empty();
    let cfg = InstallerConfig::from_env(&e);
    let s = live_medium();
    let r = discover(&cfg, &e, &s);
    assert_eq!(
        find_live_limine_conf(&r, &cfg, &s).as_deref(),
        Some("/run/live/overlayer/zaisys/limine/limine.conf")
    );
    assert_eq!(
        find_install_limine_conf(&r, &cfg, &s).as_deref(),
        Some("/run/live/overlayer/zaisys/limine/limine.install.conf")
    );
    let empty = AssetReport::default();
    assert_eq!(find_live_limine_conf(&empty, &cfg, &s), None);
}

#[test]
fn tzdata_is_available_only_when_its_root_is_a_directory() {
    let e = env(&[("ZAINIUM_ZONEINFO", "/tmp/zi")]);
    assert!(available(&e, &snap(&[], &["/tmp/zi"], &[])));
    assert!(!available(&e, &snap(&[], &["/usr/share/zoneinfo"], &[])));
    assert!(available(
        &EnvVars::empty(),
        &snap(&[], &["/usr/share/zoneinfo"], &[])
    ));
}

#[test]
fn join_path_follows_path_join() {
    assert_eq!(join_path("/a", "b"), "/a/b");
    assert_eq!(join_path("/a/", "b"), "/a/b");
    assert_eq!(join_path("/a", "/b"), "/b");
    assert_eq!(join_path("", "b"), "b");
    for (base, p) in [("/x/y", "z/w"), (".", "overlayer"), ("a/", "/abs")] {
        assert_eq!(
            join_path(base, p),
            std::path::Path::new(base).join(p).to_str().unwrap()
        );
    }
}

#[test]
fn discovery_reports_only_paths_that_exist() {
    let e = EnvVars::empty();
    let cfg = InstallerConfig::from_env(&e);
    let s = live_medium();
    let r = discover(&cfg, &e, &s);
    let files = [
        &r.kernel,
        &r.initrd,
        &r.limine_efi,
        &r.limine_live_conf,
        &r.limine_install_conf,
        &r.wallpaper,
        &r.squash,
        &r.quantra,
    ];
    for f in files.into_iter().flatten() {
        assert!(s.files.contains(f), "{f} is not a file");
    }
    for d in [&r.syshub, &r.zaisys].into_iter().flatten() {
        assert!(s.dirs.contains(d), "{d} is not a directory");
    }
}

#[test]
fn deploy_sources_prefer_the_plan_when_it_exists() {
    let mut assets = AssetReport::default();
    assets.squash = Some("/run/found/zairoot.img".to_string());
    assets.overlayer = Some("/run/found/overlayer".to_string());
    let mut plan = InstallPlan::from_env(&EnvVars::empty());
    plan.squash_path = Some("/media/zairoot.img".to_string());
    plan.live_overlayer = Some("/media/overlayer".to_string());

    let present = snap(&["/media/zairoot.img"], &["/media/overlayer"], &[]);
    assert_eq!(
        deploy_sources(&plan, &assets, &present),
        (Some("/media/zairoot.img".to_string()), Some("/media/overlayer".to_string()))
    );

    let absent = snap(&[], &[], &[]);
    assert_eq!(
        deploy_sources(&plan, &assets, &absent),
        (Some("/run/found/zairoot.img".to_string()), Some("/run/found/overlayer".to_string()))
    );

    // a directory where an image is expected, and a file where the overlayer is
    let swapped = snap(&["/media/overlayer"], &["/media/zairoot.img"], &[]);
    assert_eq!(
        deploy_sources(&plan, &assets, &swapped),
        (Some("/run/found/zairoot.img".to_string()), Some("/run/found/overlayer".to_string()))
    );

    plan.squash_path = None;
    plan.live_overlayer = None;
    assert_eq!(deploy_sources(&plan, &AssetReport::default(), &present), (None, None));
}

#[test]
fn zone_names_under_lists_files_relative_and_sorted() {
    let s = snap(
        &[
            "/z/Europe/Paris",
            "/z/Europe/Berlin",
            "/z/Europeana",
            "/z/America/Argentina/Cordoba",
            "/z/UTC",
        ],
        &["/z", "/z/Europe", "/z/America", "/z/America/Argentina"],
        &[],
    );
    assert_eq!(
        zone_names_under(&s, "/z/Europe"),
        vec!["Berlin".to_string(), "Paris".to_string()]
    );
    assert_eq!(
        zone_names_under(&s, "/z/America"),
        vec!["Argentina/Cordoba".to_string()]
    );
    assert!(zone_names_under(&s, "/z/Asia").is_empty());
}

#[test]
fn utf8_length_bound_counts_bytes() {
    assert!(utf8_len_at_least("abcd", 4));
    assert!(!utf8_len_at_least("abc", 4));
    assert!(utf8_len_at_least("éé", 4));
    assert!(!utf8_len_at_least("é", 3));
    assert!(utf8_len_at_least("", 0));
    assert!(!utf8_len_at_least("a very long password indeed", u64::MAX));
    assert!(!utf8_len_at_least("x", 0x1_0001));
}

#[test]
fn conf_candidates_under_an_overridden_zaisys() {
    let cfg = InstallerConfig::from_env(&EnvVars::empty());
    let mut a = AssetReport::default();
    a.zaisys = Some("/media/z".to_string());
    assert_eq!(
        live_limine_conf_candidates(&a, &cfg),
        vec!["/media/z/limine/limine.conf".to_string(), "/media/z/limine.conf".to_string()]
    );
    let install = install_limine_conf_candidates(&a, &cfg);
    assert_eq!(install[0], "/media/z/limine/limine.install.conf");
    assert_eq!(install.len(), 4);
    let probed = snap(&["/media/z/limine/limine.install.conf"], &[], &[]);
    assert_eq!(
        find_install_limine_conf(&a, &cfg, &probed).as_deref(),
        Some("/media/z/limine/limine.install.conf")
    );
    assert_eq!(find_live_limine_conf(&a, &cfg, &probed), None);
}
