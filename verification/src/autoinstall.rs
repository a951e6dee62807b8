//! Headless, non-interactive install: every value comes from the TOML
//! config, or the install is refused. The caller reads and parses the
//! file; these functions turn the parsed config into a plan and pick the
//! target disk.
use vstd::prelude::*;

use crate::env::{opt_view, EnvVars};
use crate::model::install_plan::{
    or_default, plan_defaults, utf8_len, valid_username_spec, DiskCandidate, InstallPlan,
};
use crate::text::{dec, extend_str, from_chars, owned, push_dec, str_eq, to_chars};
use crate::tzdata::{zone_exists, zone_name_ok};

verus! {

/// `[system]` of the auto-install config.
pub struct SystemCfg {
    pub locale: Option<String>,
    pub keyboard: Option<String>,
    pub timezone: Option<String>,
    pub hostname: Option<String>,
}

/// `[user]` of the auto-install config.
pub struct UserCfg {
    pub full_name: String,
    pub username: String,
    /// Plaintext password, only for throwaway/CI use.
    pub password: Option<String>,
    /// Name of an environment variable holding the password (recommended).
    pub password_env: Option<String>,
}

/// `[disk]`: "largest" (default) | "only" | an explicit /dev/... path.
pub struct DiskCfg {
    pub select: Option<String>,
}

/// `[install]`.
pub struct InstallCfg {
    /// Default false: a config you point --config at means a real install.
    pub dry_run: Option<bool>,
    /// Default false: rebooting must be asked for.
    pub reboot_after: Option<bool>,
}

/// The parsed auto-install config.
pub struct FileConfig {
    pub system: SystemCfg,
    pub user: UserCfg,
    pub disk: DiskCfg,
    pub install: InstallCfg,
}

/// Where the boot path looks for the config by default.
pub fn default_config_path() -> (p: String)
    ensures
        p@ == "/overlayer/zaisys/carve/autoinstall.toml"@,
{
    owned("/overlayer/zaisys/carve/autoinstall.toml")
}

/// The password the config names: from the variable `password_env` when
/// given, else the plaintext `password`.
pub open spec fn resolve_password_spec(
    direct: Option<Seq<char>>,
    env_name: Option<Seq<char>>,
    env: EnvVars,
) -> Result<Seq<char>, Seq<char>> {
    match env_name {
        Some(name) => match env.lookup(name) {
            Some(v) => Ok(v),
            None => Err("password_env names '"@ + name + "' but that variable isn't set"@),
        },
        None => match direct {
            Some(p) => Ok(p),
            None => Err("user.password or user.password_env is required"@),
        },
    }
}

pub fn resolve_password(direct: Option<String>, env_name: Option<String>, env: &EnvVars) -> (r:
    Result<String, String>)
    ensures
        crate::text::res_view(r) == resolve_password_spec(opt_view(direct), opt_view(env_name), *env),
{
    match env_name {
        Some(name) => match env.get(name.as_str()) {
            Some(v) => Ok(v),
            None => {
                let mut m: Vec<char> = Vec::new();
                extend_str(&mut m, "password_env names '");
                extend_str(&mut m, name.as_str());
                extend_str(&mut m, "' but that variable isn't set");
                Err(from_chars(&m))
            },
        },
        None => match direct {
            Some(p) => Ok(p),
            None => Err(owned("user.password or user.password_env is required")),
        },
    }
}

/// Index of the first candidate at `path`, or `c.len()`.
pub open spec fn first_path_index(c: Seq<DiskCandidate>, path: Seq<char>) -> int
    decreases c.len(),
{
    if c.len() == 0 {
        0
    } else if c[0].path@ == path {
        0
    } else {
        1 + first_path_index(c.drop_first(), path)
    }
}

/// Index of the largest candidate; the last one among equally large ones.
pub open spec fn last_max_index(c: Seq<DiskCandidate>) -> int
    decreases c.len(),
{
    if c.len() <= 1 {
        0
    } else {
        let k = last_max_index(c.drop_last());
        if c.last().size_bytes >= c[k].size_bytes {
            c.len() - 1
        } else {
            k
        }
    }
}

pub open spec fn explicit_select(select: Seq<char>) -> bool {
    select.len() > 0 && select[0] == '/'
}

/// Which candidate the selector picks (by index), or the error it gives.
pub open spec fn pick_disk_spec(c: Seq<DiskCandidate>, select: Seq<char>, dry_run: bool) -> Result<
    Option<int>,
    Seq<char>,
> {
    if explicit_select(select) {
        let k = first_path_index(c, select);
        if k < c.len() {
            Ok(Some(k))
        } else {
            Err("disk '"@ + select + "' not found (or is the live medium)"@)
        }
    } else if select == "only"@ {
        if c.len() == 1 {
            Ok(Some(0))
        } else if c.len() == 0 {
            Err("no usable disks found"@)
        } else {
            Err("disk.select = \"only\" but "@ + dec(c.len()) + " candidate disks found — be explicit"@)
        }
    } else if c.len() == 0 {
        if dry_run {
            Ok(None)
        } else {
            Err("no usable disks found"@)
        }
    } else {
        Ok(Some(last_max_index(c)))
    }
}

/// The outcome `r` is the candidate (or error) that `spec` describes.
pub open spec fn picked(
    r: Result<Option<DiskCandidate>, String>,
    c: Seq<DiskCandidate>,
    spec: Result<Option<int>, Seq<char>>,
) -> bool {
    match (r, spec) {
        (Ok(Some(d)), Ok(Some(k))) => 0 <= k < c.len() && d == c[k],
        (Ok(None), Ok(None)) => true,
        (Err(e), Err(m)) => e@ == m,
        _ => false,
    }
}

pub proof fn lemma_first_path_index(c: Seq<DiskCandidate>, path: Seq<char>)
    ensures
        0 <= first_path_index(c, path) <= c.len(),
        first_path_index(c, path) < c.len() ==> c[first_path_index(c, path)].path@ == path,
        forall|j: int| 0 <= j < first_path_index(c, path) ==> c[j].path@ != path,
    decreases c.len(),
{
    if c.len() > 0 && c[0].path@ != path {
        lemma_first_path_index(c.drop_first(), path);
        assert forall|j: int| 0 <= j < first_path_index(c, path) implies c[j].path@ != path by {
            if j > 0 {
                assert(c[j] == c.drop_first()[j - 1]);
            }
        }
    }
}

/// The "largest" pick is a largest candidate, and no later candidate is as
/// large (the last of equally large ones wins).
pub proof fn lemma_last_max_is_largest(c: Seq<DiskCandidate>)
    requires
        c.len() > 0,
    ensures
        0 <= last_max_index(c) < c.len(),
        forall|j: int|
            0 <= j < c.len() ==> (#[trigger] c[j]).size_bytes <= c[last_max_index(c)].size_bytes,
        forall|j: int|
            last_max_index(c) < j < c.len() ==> (#[trigger] c[j]).size_bytes < c[last_max_index(
                c,
            )].size_bytes,
    decreases c.len(),
{
    if c.len() > 1 {
        lemma_last_max_is_largest(c.drop_last());
        let k = last_max_index(c.drop_last());
        assert forall|j: int| 0 <= j < c.len() - 1 implies c[j] == c.drop_last()[j] by {}
    }
}

/// Picks the install target among `candidates` (live media already left
/// out). `select` is an explicit `/dev/...` path, `"only"` (exactly one
/// candidate required) or `"largest"`; any other selector falls back to
/// `"largest"`. With no candidate, a dry run proceeds without a disk.
pub fn pick_disk(candidates: Vec<DiskCandidate>, select: &str, dry_run: bool) -> (r: Result<
    Option<DiskCandidate>,
    String,
>)
    ensures
        picked(r, candidates@, pick_disk_spec(candidates@, select@, dry_run)),
{
    let ghost c0 = candidates@;
    let sc = to_chars(select);
    if sc.len() > 0 && sc[0] == '/' {
        let mut k: usize = 0;
        proof {
            lemma_first_path_index(c0, select@);
        }
        while k < candidates.len() && !str_eq(candidates[k].path.as_str(), select)
            invariant
                k <= candidates@.len(),
                forall|j: int| 0 <= j < k ==> candidates@[j].path@ != select@,
            decreases candidates.len() - k,
        {
            k += 1;
        }
        if k < candidates.len() {
            assert(first_path_index(c0, select@) == k);
            let mut cs = candidates;
            let d = cs.remove(k);
            return Ok(Some(d));
        }
        assert(first_path_index(c0, select@) == c0.len());
        let mut m: Vec<char> = Vec::new();
        extend_str(&mut m, "disk '");
        extend_str(&mut m, select);
        extend_str(&mut m, "' not found (or is the live medium)");
        return Err(from_chars(&m));
    }
    if str_eq(select, "only") {
        let n = candidates.len();
        if n == 1 {
            let mut cs = candidates;
            let d = cs.remove(0);
            return Ok(Some(d));
        } else if n == 0 {
            return Err(owned("no usable disks found"));
        } else {
            let mut m: Vec<char> = Vec::new();
            extend_str(&mut m, "disk.select = \"only\" but ");
            push_dec(&mut m, n as u128);
            extend_str(&mut m, " candidate disks found — be explicit");
            return Err(from_chars(&m));
        }
    }
    if candidates.len() == 0 {
        if dry_run {
            return Ok(None);
        }
        return Err(owned("no usable disks found"));
    }
    let mut best: usize = 0;
    let mut i: usize = 1;
    assert(c0.take(1).len() == 1);
    while i < candidates.len()
        invariant
            1 <= i <= candidates@.len(),
            best == last_max_index(candidates@.take(i as int)),
            best < i,
        decreases candidates.len() - i,
    {
        assert(candidates@.take(i + 1).drop_last() == candidates@.take(i as int));
        assert(candidates@.take(i + 1).last() == candidates@[i as int]);
        assert(candidates@.take(i as int)[best as int] == candidates@[best as int]);
        if candidates[i].size_bytes >= candidates[best].size_bytes {
            best = i;
        }
        i += 1;
    }
    assert(candidates@.take(i as int) == candidates@);
    let mut cs = candidates;
    let d = cs.remove(best);
    Ok(Some(d))
}

/// A selector that is neither a path, "only" nor "largest" (it falls back
/// to "largest"; the caller warns about it).
pub fn is_unknown_selector(select: &str) -> (r: bool)
    ensures
        r == (!explicit_select(select@) && select@ != "only"@ && select@ != "largest"@),
{
    let sc = to_chars(select);
    !(sc.len() > 0 && sc[0] == '/') && !str_eq(select, "only") && !str_eq(select, "largest")
}

/// The candidates that are not the live medium, in order.
pub open spec fn usable_disks(c: Seq<DiskCandidate>) -> Seq<DiskCandidate>
    decreases c.len(),
{
    if c.len() == 0 {
        Seq::empty()
    } else {
        usable_disks(c.drop_last()) + if c.last().is_live_medium {
            Seq::<DiskCandidate>::empty()
        } else {
            seq![c.last()]
        }
    }
}

proof fn lemma_usable_disks_not_live(c: Seq<DiskCandidate>)
    ensures
        forall|i: int|
            0 <= i < usable_disks(c).len() ==> !(#[trigger] usable_disks(c)[i]).is_live_medium,
    decreases c.len(),
{
    if c.len() > 0 {
        lemma_usable_disks_not_live(c.drop_last());
        let prior = usable_disks(c.drop_last());
        assert forall|i: int| 0 <= i < usable_disks(c).len() implies !(
        #[trigger] usable_disks(c)[i]).is_live_medium by {
            if i < prior.len() {
                assert(usable_disks(c)[i] == prior[i]);
            }
        }
    }
}

/// The live medium is never the install target: whichever disk the
/// selector picks from the listed disks is one that is not the live
/// medium.
pub proof fn lemma_live_medium_never_picked(disks: Seq<DiskCandidate>, select: Seq<char>, dry_run: bool)
    ensures
        pick_disk_spec(usable_disks(disks), select, dry_run) matches Ok(Some(k)) ==> 0 <= k
            < usable_disks(disks).len() && !usable_disks(disks)[k].is_live_medium,
{
    let c = usable_disks(disks);
    lemma_usable_disks_not_live(disks);
    lemma_first_path_index(c, select);
    if c.len() > 0 {
        lemma_last_max_is_largest(c);
    }
}

/// Picks the install target among the listed disks: the live medium is
/// never a candidate, and an absent selector means "largest".
pub fn resolve_disk(disks: Vec<DiskCandidate>, select: Option<&str>, dry_run: bool) -> (r: Result<
    Option<DiskCandidate>,
    String,
>)
    ensures
        picked(
            r,
            usable_disks(disks@),
            pick_disk_spec(
                usable_disks(disks@),
                match select {
                    Some(s) => s@,
                    None => "largest"@,
                },
                dry_run,
            ),
        ),
{
    let mut usable: Vec<DiskCandidate> = Vec::new();
    let mut i: usize = 0;
    assert(disks@.take(0) =~= Seq::<DiskCandidate>::empty());
    while i < disks.len()
        invariant
            i <= disks@.len(),
            usable@ == usable_disks(disks@.take(i as int)),
        decreases disks.len() - i,
    {
        assert(disks@.take(i + 1).drop_last() == disks@.take(i as int));
        assert(disks@.take(i + 1).last() == disks@[i as int]);
        if !disks[i].is_live_medium {
            usable.push(disks[i].clone());
        }
        i += 1;
        assert(usable@ =~= usable_disks(disks@.take(i as int)));
    }
    assert(disks@.take(i as int) == disks@);
    let sel = match select {
        Some(s) => s,
        None => "largest",
    };
    pick_disk(usable, sel, dry_run)
}

/// `"config error: " + e`, the prefix every refusal is printed with.
pub fn config_error(e: &str) -> (r: String)
    ensures
        r@ == "config error: "@ + e@,
{
    let mut m: Vec<char> = Vec::new();
    extend_str(&mut m, "config error: ");
    extend_str(&mut m, e);
    from_chars(&m)
}

pub open spec fn timezone_error(zone: Seq<char>) -> Seq<char> {
    "config error: timezone '"@ + zone
        + "' isn't a real zone under /usr/share/zoneinfo (or ZAINIUM_ZONEINFO) on this medium — refusing to guess"@
}

pub open spec fn invalid_user_error() -> Seq<char> {
    "config error: invalid error-username (username: lowercase [a-z0-9_-], starts with a letter; password: 4+ chars)"@
}

/// Why the config is refused before any disk is chosen, if it is:
/// an unknown timezone, a missing password, or an invalid username or
/// password. `tzfile_is_file` is what the caller found at the zone's
/// tzfile path.
pub open spec fn config_refusal(cfg: FileConfig, env: EnvVars, tzfile_is_file: bool) -> Option<
    Seq<char>,
> {
    let pw = resolve_password_spec(
        opt_view(cfg.user.password),
        opt_view(cfg.user.password_env),
        env,
    );
    if cfg.system.timezone is Some && !(zone_name_ok(cfg.system.timezone->0@) && tzfile_is_file) {
        Some(timezone_error(cfg.system.timezone->0@))
    } else if pw is Err {
        Some("config error: "@ + pw->Err_0)
    } else if !(valid_username_spec(cfg.user.username@) && utf8_len(pw->Ok_0) >= 4) {
        Some(invalid_user_error())
    } else {
        None
    }
}

/// A config is accepted only with a valid user: the username is not empty,
/// starts with a lowercase ASCII letter and holds nothing but `a`-`z`,
/// `0`-`9`, `_` and `-`, and the password takes at least 4 bytes. A config
/// whose timezone and password are in order but whose username is not is
/// refused with the invalid-username error.
pub proof fn lemma_config_accepted_only_with_valid_user(
    cfg: FileConfig,
    env: EnvVars,
    tzfile_is_file: bool,
)
    ensures
        ({
            let u = cfg.user.username@;
            let pw = resolve_password_spec(
                opt_view(cfg.user.password),
                opt_view(cfg.user.password_env),
                env,
            );
            let shape_ok = u.len() > 0 && 'a' <= u[0] <= 'z' && forall|i: int|
                0 <= i < u.len() ==> ('a' <= #[trigger] u[i] <= 'z' || '0' <= u[i] <= '9' || u[i]
                    == '_' || u[i] == '-');
            &&& config_refusal(cfg, env, tzfile_is_file) is None ==> shape_ok && pw is Ok && utf8_len(
                pw->Ok_0,
            ) >= 4
            &&& (!shape_ok && pw is Ok && (cfg.system.timezone is None || (zone_name_ok(
                cfg.system.timezone->0@,
            ) && tzfile_is_file))) ==> config_refusal(cfg, env, tzfile_is_file) == Some(
                "config error: invalid error-username (username: lowercase [a-z0-9_-], starts with a letter; password: 4+ chars)"@,
            )
        }),
{
    let u = cfg.user.username@;
    let shape_ok = u.len() > 0 && 'a' <= u[0] <= 'z' && forall|i: int|
        0 <= i < u.len() ==> ('a' <= #[trigger] u[i] <= 'z' || '0' <= u[i] <= '9' || u[i] == '_'
            || u[i] == '-');
    assert(valid_username_spec(u) == shape_ok) by {
        if valid_username_spec(u) {
            assert forall|i: int| 0 <= i < u.len() implies ('a' <= #[trigger] u[i] <= 'z' || '0'
                <= u[i] <= '9' || u[i] == '_' || u[i] == '-') by {
                assert(crate::model::install_plan::is_username_char(u[i]));
            }
        }
        if shape_ok {
            assert forall|i: int| 0 <= i < u.len() implies crate::model::install_plan::is_username_char(
                #[trigger] u[i],
            ) by {
                assert('a' <= u[i] <= 'z' || '0' <= u[i] <= '9' || u[i] == '_' || u[i] == '-');
            }
        }
    }
}

/// Builds the install plan from the config: the environment's defaults,
/// overridden by every value the config sets. Refuses the config when
/// `config_refusal` says so.
pub fn plan_from_config(cfg: FileConfig, env: &EnvVars, tzfile_is_file: bool) -> (r: Result<
    InstallPlan,
    String,
>)
    ensures
        r is Err <==> config_refusal(cfg, *env, tzfile_is_file) is Some,
        r matches Err(e) ==> e@ == config_refusal(cfg, *env, tzfile_is_file)->0,
        r matches Ok(p) ==> {
            let base = plan_defaults(*env);
            &&& p.dry_run == match cfg.install.dry_run {
                Some(b) => b,
                None => false,
            }
            &&& p.locale@ == or_default(opt_view(cfg.system.locale), base.locale)
            &&& p.keyboard@ == or_default(opt_view(cfg.system.keyboard), base.keyboard)
            &&& p.hostname@ == or_default(opt_view(cfg.system.hostname), base.hostname)
            &&& p.timezone@ == or_default(opt_view(cfg.system.timezone), base.timezone)
            &&& p.full_name@ == cfg.user.full_name@
            &&& p.username@ == cfg.user.username@
            &&& Ok::<Seq<char>, Seq<char>>(p.password@) == resolve_password_spec(
                opt_view(cfg.user.password),
                opt_view(cfg.user.password_env),
                *env,
            )
            &&& p.dry_run_root@ == base.dry_run_root
            &&& p.efi_size_mib == base.efi_size_mib
            &&& opt_view(p.squash_path) == base.squash_path
            &&& opt_view(p.live_overlayer) == base.live_overlayer
            &&& opt_view(p.zaisys_path) == base.zaisys_path
            &&& p.disk is None
            &&& p.efi_part is None
            &&& p.root_part is None
            &&& p.root_uuid is None
        },
{
    let mut plan = InstallPlan::from_env(env);
    plan.dry_run = match cfg.install.dry_run {
        Some(b) => b,
        None => false,
    };
    if let Some(v) = cfg.system.locale {
        plan.locale = v;
    }
    if let Some(v) = cfg.system.keyboard {
        plan.keyboard = v;
    }
    if let Some(v) = cfg.system.hostname {
        plan.hostname = v;
    }
    if let Some(v) = cfg.system.timezone {
        if !zone_exists(v.as_str(), tzfile_is_file) {
            let mut m: Vec<char> = Vec::new();
            extend_str(&mut m, "config error: timezone '");
            extend_str(&mut m, v.as_str());
            extend_str(
                &mut m,
                "' isn't a real zone under /usr/share/zoneinfo (or ZAINIUM_ZONEINFO) on this medium — refusing to guess",
            );
            return Err(from_chars(&m));
        }
        plan.timezone = v;
    }
    plan.full_name = cfg.user.full_name;
    plan.username = cfg.user.username;
    plan.password = match resolve_password(cfg.user.password, cfg.user.password_env, env) {
        Ok(p) => p,
        Err(e) => {
            return Err(config_error(e.as_str()));
        },
    };
    if let Err(field) = plan.validate_user() {
        let mut m: Vec<char> = Vec::new();
        extend_str(&mut m, "config error: invalid ");
        extend_str(&mut m, field);
        extend_str(
            &mut m,
            " (username: lowercase [a-z0-9_-], starts with a letter; password: 4+ chars)",
        );
        assert(m@ =~= invalid_user_error()) by {
            reveal_strlit("error-username");
            reveal_strlit("config error: invalid ");
            reveal_strlit(
                " (username: lowercase [a-z0-9_-], starts with a letter; password: 4+ chars)",
            );
            reveal_strlit(
                "config error: invalid error-username (username: lowercase [a-z0-9_-], starts with a letter; password: 4+ chars)",
            );
        }
        return Err(from_chars(&m));
    }
    Ok(plan)
}

/// Whether the finished install reboots: only a real install whose config
/// asked for it.
pub fn should_reboot(dry_run: bool, reboot_after: Option<bool>) -> (r: bool)
    ensures
        r == (!dry_run && reboot_after == Some(true)),
{
    !dry_run && match reboot_after {
        Some(b) => b,
        None => false,
    }
}

} // verus!
