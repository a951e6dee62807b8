//! Limine boot configuration. The live and install menus are prepared by
//! you; the installer only fills `${ROOT_UUID}` / `${ROOT_FSTYPE}` in the
//! install conf, or, when none was prepared, writes one from the assets it
//! actually stages. It never writes a dummy UUID.
use vstd::prelude::*;

use crate::backend::assets::{file_name, file_name_exec, strs_view, AssetReport};
use crate::backend::elevate_cmd::{stderr_text, stdout_text, utf8_lossy, CommandOutput};
use crate::backend::quantra::{join_strings, join_with};
use crate::model::install_plan::InstallPlan;
use crate::backend::config::InstallerConfig;
use crate::backend::paths::{join, join_path};
use crate::env::{opt_view, EnvVars};
use crate::snapshot::FsSnapshot;
use crate::text::{
    contains, contains_exec, eq_ignore_ascii_case, eq_ignore_ascii_case_exec, extend_str,
    from_chars, lemma_replace_absent, owned, replace_all, replace_all_exec, res_view, strings_view,
    to_chars, trim, trim_exec,
};

verus! {

/// Placeholder for the root partition's UUID in your install conf.
pub const PH_ROOT_UUID: &'static str = "${ROOT_UUID}";

/// Placeholder for the root filesystem type in your install conf.
pub const PH_ROOT_FSTYPE: &'static str = "${ROOT_FSTYPE}";

pub open spec fn ph_root_uuid() -> Seq<char> {
    "${ROOT_UUID}"@
}

pub open spec fn ph_root_fstype() -> Seq<char> {
    "${ROOT_FSTYPE}"@
}

/// A UUID value that only stands in for a real one.
pub open spec fn is_dummy_uuid_spec(u: Seq<char>) -> bool {
    ||| contains(u, "00000000"@)
    ||| u == "REPLACE-WITH-ROOT-UUID"@
    ||| u == "PENDING"@
    ||| eq_ignore_ascii_case(u, "dummy"@)
}

/// The install conf for `template`: only the two placeholders are
/// substituted; everything else is kept as written.
pub open spec fn install_placeholders(
    template: Seq<char>,
    root_uuid: Seq<char>,
    root_fstype: Seq<char>,
) -> Result<Seq<char>, Seq<char>> {
    let uuid = trim(root_uuid);
    if uuid.len() == 0 {
        Err("root UUID is empty"@)
    } else if is_dummy_uuid_spec(uuid) {
        Err("refusing dummy root UUID"@)
    } else {
        let with_uuid = replace_all(template, ph_root_uuid(), uuid);
        let out = replace_all(with_uuid, ph_root_fstype(), root_fstype);
        if contains(out, ph_root_uuid()) {
            Err("unresolved ${ROOT_UUID} after substitute"@)
        } else {
            Ok(out)
        }
    }
}

fn is_dummy_uuid_chars(u: &[char]) -> (r: bool)
    ensures
        r == is_dummy_uuid_spec(u@),
{
    let zeros = to_chars("00000000");
    let repl = to_chars("REPLACE-WITH-ROOT-UUID");
    let pending = to_chars("PENDING");
    let dummy = to_chars("dummy");
    contains_exec(u, &zeros) || crate::text::chars_eq(u, &repl) || crate::text::chars_eq(
        u,
        &pending,
    ) || eq_ignore_ascii_case_exec(u, &dummy)
}

/// A UUID value that only stands in for a real one: any run of eight
/// zeros, the template markers, or "dummy" in any ASCII case.
pub fn is_dummy_uuid(uuid: &str) -> (r: bool)
    ensures
        r == is_dummy_uuid_spec(uuid@),
{
    let u = to_chars(uuid);
    is_dummy_uuid_chars(&u)
}

/// Applies only the known placeholders; leaves the rest of the file
/// untouched.
pub fn apply_install_placeholders(template: &str, root_uuid: &str, root_fstype: &str) -> (r:
    Result<String, String>)
    ensures
        res_view(r) == install_placeholders(template@, root_uuid@, root_fstype@),
{
    let raw = to_chars(root_uuid);
    let uuid = trim_exec(&raw);
    if uuid.len() == 0 {
        return Err(owned("root UUID is empty"));
    }
    if is_dummy_uuid_chars(&uuid) {
        return Err(owned("refusing dummy root UUID"));
    }
    let ph_uuid = to_chars(PH_ROOT_UUID);
    let ph_fstype = to_chars(PH_ROOT_FSTYPE);
    let fstype = to_chars(root_fstype);
    proof {
        reveal_strlit("${ROOT_UUID}");
        reveal_strlit("${ROOT_FSTYPE}");
    }
    assert(ph_uuid@ == ph_root_uuid());
    assert(ph_fstype@ == ph_root_fstype());
    let mut out = to_chars(template);
    if contains_exec(&out, &ph_uuid) {
        out = replace_all_exec(&out, &ph_uuid, &uuid);
    } else {
        proof {
            lemma_replace_absent(out@, ph_uuid@, uuid@);
        }
    }
    if contains_exec(&out, &ph_fstype) {
        out = replace_all_exec(&out, &ph_fstype, &fstype);
    } else {
        proof {
            lemma_replace_absent(out@, ph_fstype@, fstype@);
        }
    }
    if contains_exec(&out, &ph_uuid) {
        return Err(owned("unresolved ${ROOT_UUID} after substitute"));
    }
    Ok(from_chars(&out))
}

/// A conf written for a real, non-dummy UUID never keeps a `${ROOT_UUID}`.
pub proof fn lemma_applied_conf_has_no_uuid_placeholder(
    template: Seq<char>,
    root_uuid: Seq<char>,
    root_fstype: Seq<char>,
)
    requires
        install_placeholders(template, root_uuid, root_fstype) is Ok,
    ensures
        install_placeholders(template, root_uuid, root_fstype) matches Ok(out) && !contains(
            out,
            ph_root_uuid(),
        ),
        !is_dummy_uuid_spec(trim(root_uuid)),
        trim(root_uuid).len() > 0,
{
}

/// A conf without placeholders is deployed byte for byte, whatever valid
/// UUID and filesystem type are given.
pub proof fn lemma_placeholder_free_conf_unchanged(
    template: Seq<char>,
    root_uuid: Seq<char>,
    root_fstype: Seq<char>,
)
    requires
        !contains(template, ph_root_uuid()),
        !contains(template, ph_root_fstype()),
        trim(root_uuid).len() > 0,
        !is_dummy_uuid_spec(trim(root_uuid)),
    ensures
        install_placeholders(template, root_uuid, root_fstype) == Ok::<Seq<char>, Seq<char>>(
            template,
        ),
{
    reveal_strlit("${ROOT_UUID}");
    reveal_strlit("${ROOT_FSTYPE}");
    lemma_replace_absent(template, ph_root_uuid(), trim(root_uuid));
    lemma_replace_absent(template, ph_root_fstype(), root_fstype);
}

/// A dummy or empty UUID is refused, whatever the template holds.
pub proof fn lemma_dummy_uuid_refused(
    template: Seq<char>,
    root_uuid: Seq<char>,
    root_fstype: Seq<char>,
)
    requires
        trim(root_uuid).len() == 0 || is_dummy_uuid_spec(trim(root_uuid)),
    ensures
        install_placeholders(template, root_uuid, root_fstype) is Err,
{
}

/// Where the Limine boot files go on the ESP.
pub open spec fn esp_kernel_dir() -> Seq<char> {
    "overlayer/zaisys/kernel"@
}

/// The name of the kernel the generated conf boots: the staged kernel's
/// own file name, or a marker when no kernel was found.
pub open spec fn kernel_name_spec(a: AssetReport) -> Seq<char> {
    match a.kernel {
        Some(k) => match file_name(k@) {
            Some(n) => n,
            None => "MISSING-KERNEL"@,
        },
        None => "MISSING-KERNEL"@,
    }
}

/// A working limine.conf built from the assets being staged.
pub open spec fn generated_conf_spec(a: AssetReport, fstype: Seq<char>, root_uuid: Seq<char>) -> Seq<
    char,
> {
    "# Limine installed boot — generated by carve\n"@
        + "# (no limine.install.conf found under overlayer/zaisys/limine; built from discovered assets)\n"@
        + "timeout: 5\ndefault_entry: 1\ngraphics: yes\n"@ + (if a.wallpaper is Some {
        "wallpaper: boot():/overlayer/zaisys/limine/wallpaper.bmp\n"@
    } else {
        Seq::<char>::empty()
    }) + "\n/Zainium\n    protocol: linux\n    path: boot():/overlayer/zaisys/kernel/"@
        + kernel_name_spec(a) + "\n    cmdline: quiet root=UUID="@ + root_uuid + " rootfstype="@
        + fstype + "\n    module_path: boot():/overlayer/zaisys/kernel/quantra-ramfs.img\n"@
}

/// Builds a working limine.conf from the discovered assets: the staged
/// kernel's real file name, the fixed initramfs and wallpaper names, and
/// the resolved root UUID / filesystem type.
pub fn generate_install_conf(assets: &AssetReport, cfg: &InstallerConfig, root_uuid: &str) -> (s:
    String)
    ensures
        s@ == generated_conf_spec(*assets, cfg.root_fstype@, root_uuid@),
{
    let mut v: Vec<char> = Vec::new();
    extend_str(&mut v, "# Limine installed boot — generated by carve\n");
    extend_str(
        &mut v,
        "# (no limine.install.conf found under overlayer/zaisys/limine; built from discovered assets)\n",
    );
    extend_str(&mut v, "timeout: 5\ndefault_entry: 1\ngraphics: yes\n");
    let ghost before = v@;
    if assets.wallpaper.is_some() {
        extend_str(&mut v, "wallpaper: boot():/overlayer/zaisys/limine/wallpaper.bmp\n");
    }
    assert(v@ =~= before + (if assets.wallpaper is Some {
        "wallpaper: boot():/overlayer/zaisys/limine/wallpaper.bmp\n"@
    } else {
        Seq::<char>::empty()
    }));
    extend_str(&mut v, "\n/Zainium\n    protocol: linux\n    path: boot():/overlayer/zaisys/kernel/");
    let kernel_name = match &assets.kernel {
        Some(k) => match file_name_exec(k.as_str()) {
            Some(n) => n,
            None => owned("MISSING-KERNEL"),
        },
        None => owned("MISSING-KERNEL"),
    };
    extend_str(&mut v, kernel_name.as_str());
    extend_str(&mut v, "\n    cmdline: quiet root=UUID=");
    extend_str(&mut v, root_uuid);
    extend_str(&mut v, " rootfstype=");
    extend_str(&mut v, cfg.root_fstype.as_str());
    extend_str(&mut v, "\n    module_path: boot():/overlayer/zaisys/kernel/quantra-ramfs.img\n");
    assert(v@ =~= generated_conf_spec(*assets, cfg.root_fstype@, root_uuid@));
    from_chars(&v)
}

/// The places a live limine.conf may be, in the order they are tried:
/// the configured override, then the discovered zaisys tree, then the
/// discovered overlayer.
pub open spec fn live_conf_candidates_spec(a: AssetReport, cfg: InstallerConfig) -> Seq<
    Seq<char>,
> {
    (match cfg.limine_live_conf {
        Some(p) => seq![p@],
        None => seq![],
    }) + (match a.zaisys {
        Some(z) => seq![join(z@, "limine/limine.conf"@), join(z@, "limine.conf"@)],
        None => seq![],
    }) + (match a.overlayer {
        Some(o) => seq![join(o@, "zaisys/limine/limine.conf"@), join(o@, "zaisys/limine.conf"@)],
        None => seq![],
    })
}

/// The places a prepared install conf may be, in the order they are tried.
pub open spec fn install_conf_candidates_spec(a: AssetReport, cfg: InstallerConfig) -> Seq<
    Seq<char>,
> {
    (match cfg.limine_install_conf {
        Some(p) => seq![p@],
        None => seq![],
    }) + (match a.zaisys {
        Some(z) => seq![
            join(z@, "limine/limine.install.conf"@),
            join(z@, "limine.install.conf"@),
            join(z@, "limine/limine-installed.conf"@),
            join(z@, "limine-installed.conf"@),
        ],
        None => seq![],
    }) + (match a.overlayer {
        Some(o) => seq![
            join(o@, "zaisys/limine/limine.install.conf"@),
            join(o@, "zaisys/limine.install.conf"@),
            join(o@, "zaisys/limine/limine-installed.conf"@),
        ],
        None => seq![],
    })
}

/// Candidate live confs; the first one that is a file is the live conf.
pub fn live_limine_conf_candidates(assets: &AssetReport, cfg: &InstallerConfig) -> (v: Vec<String>)
    ensures
        strings_view(v@) == live_conf_candidates_spec(*assets, *cfg),
{
    let mut v: Vec<String> = Vec::new();
    if let Some(p) = &cfg.limine_live_conf {
        v.push(p.clone());
    }
    if let Some(z) = &assets.zaisys {
        v.push(join_path(z.as_str(), "limine/limine.conf"));
        v.push(join_path(z.as_str(), "limine.conf"));
    }
    if let Some(o) = &assets.overlayer {
        v.push(join_path(o.as_str(), "zaisys/limine/limine.conf"));
        v.push(join_path(o.as_str(), "zaisys/limine.conf"));
    }
    assert(strings_view(v@) =~= live_conf_candidates_spec(*assets, *cfg));
    v
}

/// Candidate install confs; the first one that is a file is used.
pub fn install_limine_conf_candidates(assets: &AssetReport, cfg: &InstallerConfig) -> (v: Vec<
    String,
>)
    ensures
        strings_view(v@) == install_conf_candidates_spec(*assets, *cfg),
{
    let mut v: Vec<String> = Vec::new();
    if let Some(p) = &cfg.limine_install_conf {
        v.push(p.clone());
    }
    if let Some(z) = &assets.zaisys {
        v.push(join_path(z.as_str(), "limine/limine.install.conf"));
        v.push(join_path(z.as_str(), "limine.install.conf"));
        v.push(join_path(z.as_str(), "limine/limine-installed.conf"));
        v.push(join_path(z.as_str(), "limine-installed.conf"));
    }
    if let Some(o) = &assets.overlayer {
        v.push(join_path(o.as_str(), "zaisys/limine/limine.install.conf"));
        v.push(join_path(o.as_str(), "zaisys/limine.install.conf"));
        v.push(join_path(o.as_str(), "zaisys/limine/limine-installed.conf"));
    }
    assert(strings_view(v@) =~= install_conf_candidates_spec(*assets, *cfg));
    v
}

/// The first candidate that is a file in the snapshot.
pub open spec fn first_file(s: FsSnapshot, c: Seq<Seq<char>>) -> Option<Seq<char>>
    decreases c.len(),
{
    if c.len() == 0 {
        None
    } else if s.file(c[0]) {
        Some(c[0])
    } else {
        first_file(s, c.drop_first())
    }
}

fn first_file_exec(snap: &FsSnapshot, c: &Vec<String>) -> (r: Option<String>)
    ensures
        opt_view(r) == first_file(*snap, strings_view(c@)),
{
    let mut i: usize = 0;
    assert(strings_view(c@).skip(0) =~= strings_view(c@));
    while i < c.len()
        invariant
            i <= c@.len(),
            first_file(*snap, strings_view(c@)) == first_file(
                *snap,
                strings_view(c@).skip(i as int),
            ),
        decreases c.len() - i,
    {
        assert(strings_view(c@).skip(i as int)[0] == c@[i as int]@);
        if snap.is_file(c[i].as_str()) {
            return Some(c[i].clone());
        }
        assert(strings_view(c@).skip(i as int).drop_first() =~= strings_view(c@).skip(i + 1));
        i += 1;
    }
    None
}

/// Finds the live limine.conf you prepared: the configured override, then
/// the discovered zaisys tree, then the discovered overlayer. The
/// installer never writes it.
pub fn find_live_limine_conf(assets: &AssetReport, cfg: &InstallerConfig, snap: &FsSnapshot) -> (r:
    Option<String>)
    ensures
        opt_view(r) == first_file(*snap, live_conf_candidates_spec(*assets, *cfg)),
{
    let c = live_limine_conf_candidates(assets, cfg);
    first_file_exec(snap, &c)
}

/// Finds the install-time conf you prepared for the installer to deploy.
pub fn find_install_limine_conf(
    assets: &AssetReport,
    cfg: &InstallerConfig,
    snap: &FsSnapshot,
) -> (r: Option<String>)
    ensures
        opt_view(r) == first_file(*snap, install_conf_candidates_spec(*assets, *cfg)),
{
    let c = install_limine_conf_candidates(assets, cfg);
    first_file_exec(snap, &c)
}

/// The root UUID the format job recorded in the plan, when it is a real one.
pub fn uuid_from_plan(root_uuid: &Option<String>) -> (r: Option<String>)
    ensures
        r matches Some(u) ==> root_uuid is Some && u@ == trim(root_uuid->0@) && u@.len() > 0
            && !is_dummy_uuid_spec(u@),
        r is None ==> (root_uuid is None || trim(root_uuid->0@).len() == 0 || is_dummy_uuid_spec(
            trim(root_uuid->0@),
        )),
{
    match root_uuid {
        Some(u) => {
            let c = to_chars(u.as_str());
            let t = trim_exec(&c);
            if t.len() > 0 && !is_dummy_uuid_chars(&t) {
                Some(from_chars(&t))
            } else {
                None
            }
        },
        None => None,
    }
}


/// The UUID `ZAINIUM_ROOT_UUID` gives, trimmed, when it is not blank.
pub open spec fn env_root_uuid(env: EnvVars) -> Option<Seq<char>> {
    match env.lookup("ZAINIUM_ROOT_UUID"@) {
        Some(u) => if trim(u).len() > 0 {
            Some(trim(u))
        } else {
            None
        },
        None => None,
    }
}

/// The UUID the plan records, trimmed, when it is a real one.
pub open spec fn plan_root_uuid(o: Option<String>) -> Option<Seq<char>> {
    match o {
        Some(u) => if trim(u@).len() > 0 && !is_dummy_uuid_spec(trim(u@)) {
            Some(trim(u@))
        } else {
            None
        },
        None => None,
    }
}

/// The devices `blkid` is asked about, in order, each with whether it is
/// asked only when the device node exists: the root partition (unless it
/// is the dry-run stub), the disk itself, then its second partition named
/// both ways.
pub open spec fn uuid_probe_devices(plan: InstallPlan) -> Seq<(Seq<char>, bool)> {
    (match plan.root_part {
        Some(p) => if p@ != "dry-run-root"@ {
            seq![(p@, false)]
        } else {
            Seq::empty()
        },
        None => Seq::empty(),
    }) + (match plan.disk {
        Some(d) => seq![(d.path@, false), (d.path@ + "2"@, true), (d.path@ + "p2"@, true)],
        None => Seq::empty(),
    })
}

/// The first device whose `blkid` lookup found a UUID (`found[i]` for
/// device `i`), with that UUID.
pub open spec fn first_blkid_hit(found: Seq<Option<String>>, devs: Seq<(Seq<char>, bool)>) -> Option<
    (Seq<char>, Seq<char>),
>
    decreases devs.len(),
{
    if devs.len() == 0 || found.len() == 0 {
        None
    } else {
        match found[0] {
            Some(u) => Some((u@, devs[0].0)),
            None => first_blkid_hit(found.drop_first(), devs.drop_first()),
        }
    }
}

/// Where the root UUID comes from, with the log line naming the source:
/// the plan (after format), `ZAINIUM_ROOT_UUID`, then `blkid`.
pub open spec fn root_uuid_spec(plan: InstallPlan, env: EnvVars, found: Seq<Option<String>>) -> Result<
    (Seq<char>, Seq<char>),
    Seq<char>,
> {
    match plan_root_uuid(plan.root_uuid) {
        Some(u) => Ok((u, "limine: root UUID from install plan (post-format)"@)),
        None => match env_root_uuid(env) {
            Some(u) => Ok((u, "limine: root UUID from ZAINIUM_ROOT_UUID"@)),
            None => match first_blkid_hit(found, uuid_probe_devices(plan)) {
                Some((u, dev)) => Ok((u, "limine: root UUID from blkid "@ + dev)),
                None => if plan.dry_run {
                    Err("dry-run: set ZAINIUM_ROOT_UUID when testing install conf substitution"@)
                } else {
                    Err("could not determine root UUID (blkid / ZAINIUM_ROOT_UUID)"@)
                },
            },
        },
    }
}

/// The devices to ask `blkid` about, in order, each with whether to ask
/// only when its node exists.
pub fn root_uuid_probes(plan: &InstallPlan) -> (v: Vec<(String, bool)>)
    ensures
        v@.len() == uuid_probe_devices(*plan).len(),
        forall|i: int|
            0 <= i < v@.len() ==> (#[trigger] v@[i]).0@ == uuid_probe_devices(*plan)[i].0 && v@[i].1
                == uuid_probe_devices(*plan)[i].1,
{
    let mut v: Vec<(String, bool)> = Vec::new();
    proof {
        reveal_strlit("dry-run-root");
    }
    if let Some(p) = &plan.root_part {
        if !crate::text::str_eq(p.as_str(), "dry-run-root") {
            v.push((p.clone(), false));
        }
    }
    if let Some(d) = &plan.disk {
        v.push((d.path.clone(), false));
        let mut a: Vec<char> = to_chars(d.path.as_str());
        extend_str(&mut a, "2");
        v.push((from_chars(&a), true));
        let mut b: Vec<char> = to_chars(d.path.as_str());
        extend_str(&mut b, "p2");
        v.push((from_chars(&b), true));
    }
    v
}

/// The root UUID for the boot conf, from the plan, `ZAINIUM_ROOT_UUID`,
/// or the `blkid` lookups (`found[i]` for device `i` of
/// `root_uuid_probes`), with the log line naming where it came from.
pub fn resolve_root_uuid(plan: &InstallPlan, env: &EnvVars, found: &Vec<Option<String>>) -> (r:
    Result<(String, String), String>)
    ensures
        match root_uuid_spec(*plan, *env, found@) {
            Ok((u, line)) => r matches Ok((u2, line2)) && u2@ == u && line2@ == line,
            Err(e) => r matches Err(e2) && e2@ == e,
        },
{
    if let Some(u) = uuid_from_plan(&plan.root_uuid) {
        return Ok((u, owned("limine: root UUID from install plan (post-format)")));
    }
    if let Some(raw) = env.get("ZAINIUM_ROOT_UUID") {
        let c = to_chars(raw.as_str());
        let t = trim_exec(&c);
        if t.len() > 0 {
            return Ok((from_chars(&t), owned("limine: root UUID from ZAINIUM_ROOT_UUID")));
        }
    }
    assert(plan_root_uuid(plan.root_uuid) is None);
    assert(env_root_uuid(*env) is None);
    let devs = root_uuid_probes(plan);
    let ghost ds = uuid_probe_devices(*plan);
    let mut i: usize = 0;
    assert(found@.skip(0) =~= found@);
    assert(ds.skip(0) =~= ds);
    while i < devs.len() && i < found.len()
        invariant
            i <= devs@.len(),
            i <= found@.len(),
            plan_root_uuid(plan.root_uuid) is None,
            env_root_uuid(*env) is None,
            ds == uuid_probe_devices(*plan),
            devs@.len() == ds.len(),
            forall|j: int|
                0 <= j < devs@.len() ==> (#[trigger] devs@[j]).0@ == ds[j].0 && devs@[j].1
                    == ds[j].1,
            first_blkid_hit(found@, ds) == first_blkid_hit(
                found@.skip(i as int),
                ds.skip(i as int),
            ),
        decreases devs.len() - i,
    {
        assert(found@.skip(i as int)[0] == found@[i as int]);
        assert(ds.skip(i as int)[0] == ds[i as int]);
        if let Some(u) = &found[i] {
            assert(first_blkid_hit(found@.skip(i as int), ds.skip(i as int)) == Some(
                (u@, ds[i as int].0),
            ));
            let mut line: Vec<char> = Vec::new();
            extend_str(&mut line, "limine: root UUID from blkid ");
            extend_str(&mut line, devs[i].0.as_str());
            let line_s = from_chars(&line);
            let uc = u.clone();
            assert(uc@ == u@);
            return Ok((uc, line_s));
        }
        assert(found@.skip(i as int).drop_first() =~= found@.skip(i + 1));
        assert(ds.skip(i as int).drop_first() =~= ds.skip(i + 1));
        i += 1;
    }
    assert(first_blkid_hit(found@.skip(i as int), ds.skip(i as int)) is None);
    if plan.dry_run {
        Err(owned("dry-run: set ZAINIUM_ROOT_UUID when testing install conf substitution"))
    } else {
        Err(owned("could not determine root UUID (blkid / ZAINIUM_ROOT_UUID)"))
    }
}

/// The UUID `blkid -s UUID -o value {device}` reported: its trimmed
/// output when it succeeded with a non-blank answer.
pub fn blkid_uuid(device: &str, outcome: Result<CommandOutput, String>) -> (r: Result<
    String,
    String,
>)
    ensures
        match outcome {
            Err(e) => r matches Err(e2) && e2@ == "blkid failed to run: "@ + e@,
            Ok(out) => if !out.success {
                r matches Err(e) && e@ == "blkid failed for "@ + device@ + ": "@ + utf8_lossy(
                    out.stderr@,
                )
            } else if trim(utf8_lossy(out.stdout@)).len() == 0 {
                r matches Err(e) && e@ == "blkid returned empty UUID for "@ + device@
            } else {
                r matches Ok(u) && u@ == trim(utf8_lossy(out.stdout@))
            },
        },
{
    match outcome {
        Err(e) => {
            let mut v: Vec<char> = Vec::new();
            extend_str(&mut v, "blkid failed to run: ");
            extend_str(&mut v, e.as_str());
            Err(from_chars(&v))
        },
        Ok(out) => {
            if !out.success {
                let err = stderr_text(&out);
                let mut v: Vec<char> = Vec::new();
                extend_str(&mut v, "blkid failed for ");
                extend_str(&mut v, device);
                extend_str(&mut v, ": ");
                extend_str(&mut v, err.as_str());
                return Err(from_chars(&v));
            }
            let text = stdout_text(&out);
            let c = to_chars(text.as_str());
            let t = trim_exec(&c);
            if t.len() == 0 {
                let mut v: Vec<char> = Vec::new();
                extend_str(&mut v, "blkid returned empty UUID for ");
                extend_str(&mut v, device);
                Err(from_chars(&v))
            } else {
                Ok(from_chars(&t))
            }
        },
    }
}

/// The placeholder UUID a dry-run preview conf carries.
pub open spec fn preview_uuid() -> Seq<char> {
    "00000000-0000-0000-0000-000000000000"@
}

/// The UUID the boot conf is written with: the resolved one; for a
/// dry-run with no prepared install conf, a clearly fake placeholder
/// (and a log line saying so) when none could be resolved.
pub fn boot_conf_uuid(dry_run: bool, has_install_conf: bool, resolved: Result<String, String>) -> (r:
    Result<(String, Option<String>), String>)
    ensures
        match resolved {
            Ok(u) => r matches Ok((u2, note)) && u2@ == u@ && note is None,
            Err(e) => if dry_run && !has_install_conf {
                r matches Ok((u2, Some(note))) && u2@ == preview_uuid() && note@ == "limine: "@
                    + e@ + " — generating preview conf with placeholder UUID (dry-run only)"@
            } else {
                r matches Err(e2) && e2@ == e@
            },
        },
{
    match resolved {
        Ok(u) => Ok((u, None)),
        Err(e) => {
            if dry_run && !has_install_conf {
                let mut v: Vec<char> = Vec::new();
                extend_str(&mut v, "limine: ");
                extend_str(&mut v, e.as_str());
                extend_str(&mut v, " — generating preview conf with placeholder UUID (dry-run only)");
                Ok((owned("00000000-0000-0000-0000-000000000000"), Some(from_chars(&v))))
            } else {
                Err(e)
            }
        },
    }
}

/// The installed boot conf: your template with its placeholders filled,
/// or, with no template, one generated from the assets.
pub fn install_conf_body(
    template: Option<&str>,
    root_uuid: &str,
    assets: &AssetReport,
    cfg: &InstallerConfig,
) -> (r: Result<String, String>)
    ensures
        match template {
            Some(t) => res_view(r) == install_placeholders(t@, root_uuid@, cfg.root_fstype@),
            None => r matches Ok(b) && b@ == generated_conf_spec(
                *assets,
                cfg.root_fstype@,
                root_uuid@,
            ),
        },
{
    match template {
        Some(t) => apply_install_placeholders(t, root_uuid, cfg.root_fstype.as_str()),
        None => Ok(generate_install_conf(assets, cfg, root_uuid)),
    }
}

/// A file to copy onto the ESP, and what it is, for the log.
pub struct FileCopy {
    pub from: String,
    pub to: String,
    pub what: &'static str,
}

pub open spec fn copy_view(c: FileCopy) -> (Seq<char>, Seq<char>, Seq<char>) {
    (c.from@, c.to@, c.what@)
}

/// The generated conf boots the kernel together with the initramfs the
/// payload copies stage: its boot entry ends with the kernel command line
/// (the root UUID and filesystem type) followed by the line that loads
/// `boot():/overlayer/zaisys/kernel/quantra-ramfs.img`, and when an
/// initramfs was found the copies put it at exactly that path on the ESP.
pub proof fn lemma_generated_conf_loads_staged_initramfs(
    a: AssetReport,
    efi: Seq<char>,
    fstype: Seq<char>,
    root_uuid: Seq<char>,
)
    ensures
        crate::text::ends_with(
            generated_conf_spec(a, fstype, root_uuid),
            "\n    cmdline: quiet root=UUID="@ + root_uuid + " rootfstype="@ + fstype
                + "\n    module_path: boot():/"@ + "overlayer/zaisys/kernel/quantra-ramfs.img"@
                + "\n"@,
        ),
        (a.initrd is Some && payload_copies_spec(a, efi) is Ok) ==> payload_copies_spec(
            a,
            efi,
        )->Ok_0.contains(
            (
                a.initrd->0@,
                join(efi, "overlayer/zaisys/kernel/quantra-ramfs.img"@),
                "quantra-ramfs"@,
            ),
        ),
{
    reveal_strlit("\n    module_path: boot():/overlayer/zaisys/kernel/quantra-ramfs.img\n");
    reveal_strlit("\n    module_path: boot():/");
    reveal_strlit("overlayer/zaisys/kernel/quantra-ramfs.img");
    reveal_strlit("\n");
    reveal_strlit("overlayer/zaisys/kernel");
    reveal_strlit("quantra-ramfs.img");
    let g = generated_conf_spec(a, fstype, root_uuid);
    let tail = "\n    module_path: boot():/overlayer/zaisys/kernel/quantra-ramfs.img\n"@;
    let line = "\n    module_path: boot():/"@ + "overlayer/zaisys/kernel/quantra-ramfs.img"@ + "\n"@;
    assert(line =~= tail);
    let cmd = "\n    cmdline: quiet root=UUID="@ + root_uuid + " rootfstype="@ + fstype;
    let want = cmd + "\n    module_path: boot():/"@ + "overlayer/zaisys/kernel/quantra-ramfs.img"@
        + "\n"@;
    assert(want =~= cmd + tail);
    assert(g.subrange(g.len() - want.len(), g.len() as int) =~= want);
    let kdir = join(efi, esp_kernel_dir());
    assert(join(kdir, "quantra-ramfs.img"@) =~= join(
        efi,
        "overlayer/zaisys/kernel/quantra-ramfs.img"@,
    ));
    if a.initrd is Some && payload_copies_spec(a, efi) is Ok {
        let cs = payload_copies_spec(a, efi)->Ok_0;
        let kp: Seq<(Seq<char>, Seq<char>, Seq<char>)> = match a.kernel {
            Some(k) => seq![(k@, join(kdir, file_name(k@)->0), "kernel"@)],
            None => Seq::empty(),
        };
        assert(cs[kp.len() as int] == (
            a.initrd->0@,
            join(kdir, "quantra-ramfs.img"@),
            "quantra-ramfs"@,
        ));
    }
}

/// The boot payloads staged on the ESP at `efi`: the kernel under its own
/// name and the initramfs under its fixed name in the kernel directory,
/// and the wallpaper; a kernel path without a file name is an error.
pub open spec fn payload_copies_spec(a: AssetReport, efi: Seq<char>) -> Result<
    Seq<(Seq<char>, Seq<char>, Seq<char>)>,
    Seq<char>,
> {
    let kdir = join(efi, esp_kernel_dir());
    let kernel_part = match a.kernel {
        Some(k) => match file_name(k@) {
            Some(n) => Ok(seq![(k@, join(kdir, n), "kernel"@)]),
            None => Err("kernel path has no filename: "@ + k@),
        },
        None => Ok(Seq::empty()),
    };
    match kernel_part {
        Err(e) => Err(e),
        Ok(kp) => Ok(kp + (match a.initrd {
            Some(i) => seq![(i@, join(kdir, "quantra-ramfs.img"@), "quantra-ramfs"@)],
            None => Seq::empty(),
        }) + (match a.wallpaper {
            Some(w) => seq![
                (w@, join(efi, "overlayer/zaisys/limine/wallpaper.bmp"@), "wallpaper"@),
            ],
            None => Seq::empty(),
        })),
    }
}

fn push_copy(v: &mut Vec<FileCopy>, from: String, to: String, what: &'static str)
    ensures
        final(v)@.map_values(|c: FileCopy| copy_view(c)) == old(v)@.map_values(
            |c: FileCopy| copy_view(c),
        ).push((from@, to@, what@)),
{
    let ghost before = v@.map_values(|c: FileCopy| copy_view(c));
    v.push(FileCopy { from, to, what });
    assert(v@.map_values(|c: FileCopy| copy_view(c)) =~= before.push((from@, to@, what@)));
}

/// The boot payload copies to make onto the ESP at `efi`.
pub fn boot_payload_copies(assets: &AssetReport, efi: &str) -> (r: Result<Vec<FileCopy>, String>)
    ensures
        match payload_copies_spec(*assets, efi@) {
            Ok(cs) => r matches Ok(v) && v@.map_values(|c: FileCopy| copy_view(c)) == cs,
            Err(e) => r matches Err(e2) && e2@ == e,
        },
{
    let kdir = join_path(efi, "overlayer/zaisys/kernel");
    let mut v: Vec<FileCopy> = Vec::new();
    proof {
        reveal_strlit("overlayer/zaisys/kernel");
    }
    assert(v@.map_values(|c: FileCopy| copy_view(c)) =~= Seq::<(Seq<char>, Seq<char>, Seq<char>)>::empty());
    if let Some(k) = &assets.kernel {
        match file_name_exec(k.as_str()) {
            Some(n) => {
                push_copy(&mut v, k.clone(), join_path(kdir.as_str(), n.as_str()), "kernel");
            },
            None => {
                let mut e: Vec<char> = Vec::new();
                extend_str(&mut e, "kernel path has no filename: ");
                extend_str(&mut e, k.as_str());
                return Err(from_chars(&e));
            },
        }
    }
    if let Some(i) = &assets.initrd {
        push_copy(
            &mut v,
            i.clone(),
            join_path(kdir.as_str(), "quantra-ramfs.img"),
            "quantra-ramfs",
        );
    }
    if let Some(w) = &assets.wallpaper {
        push_copy(
            &mut v,
            w.clone(),
            join_path(efi, "overlayer/zaisys/limine/wallpaper.bmp"),
            "wallpaper",
        );
    }
    proof {
        let cs = payload_copies_spec(*assets, efi@);
        assert(cs matches Ok(x) && v@.map_values(|c: FileCopy| copy_view(c)) =~= x);
    }
    Ok(v)
}

/// The Limine EFI binary's copy to the ESP's fallback boot path.
pub fn limine_efi_copy(assets: &AssetReport, efi: &str) -> (r: Result<FileCopy, String>)
    ensures
        match assets.limine_efi {
            Some(src) => r matches Ok(c) && c.from@ == src@ && c.to@ == join(
                efi@,
                "EFI/BOOT/BOOTX64.EFI"@,
            ),
            None => r matches Err(e) && e@
                == "Limine EFI binary not found under overlayer/zaisys/limine"@,
        },
{
    match &assets.limine_efi {
        Some(src) => Ok(
            FileCopy { from: src.clone(), to: join_path(efi, "EFI/BOOT/BOOTX64.EFI"), what: "EFI" },
        ),
        None => Err(owned("Limine EFI binary not found under overlayer/zaisys/limine")),
    }
}

/// The refusal to finalize the bootloader of a real install that lacks
/// assets.
pub fn bootloader_missing_refusal(missing: &Vec<&'static str>) -> (r: Option<String>)
    ensures
        r is None <==> missing@.len() == 0,
        r matches Some(e) ==> e@ == "cannot finalize bootloader; missing: "@ + join_with(
            strs_view(missing@),
            ", "@,
        ),
{
    if missing.len() == 0 {
        return None;
    }
    let mut items: Vec<String> = Vec::new();
    let mut i: usize = 0;
    while i < missing.len()
        invariant
            i <= missing@.len(),
            strings_view(items@) == strs_view(missing@).take(i as int),
        decreases missing.len() - i,
    {
        let ghost before = strings_view(items@);
        items.push(owned(missing[i]));
        assert(strings_view(items@) =~= before.push(missing@[i as int]@));
        assert(strs_view(missing@).take(i + 1) =~= strs_view(missing@).take(i as int).push(
            missing@[i as int]@,
        ));
        i += 1;
    }
    assert(strs_view(missing@).take(i as int) =~= strs_view(missing@));
    let joined = join_strings(&items, ", ");
    let mut v: Vec<char> = Vec::new();
    extend_str(&mut v, "cannot finalize bootloader; missing: ");
    extend_str(&mut v, joined.as_str());
    Some(from_chars(&v))
}

} // verus!
