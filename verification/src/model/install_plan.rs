//! The install plan: everything the wizard or an auto-install config
//! decides before the backend touches a disk.
use vstd::prelude::*;

use crate::env::{opt_view, EnvVars};
use crate::text::{dec, extend_str, from_chars, is_digit, owned, parse_u64, parse_u64_spec, push_dec, to_chars};

verus! {

/// How the OS image is applied to the target root.
#[derive(Clone, Copy, Debug, PartialEq, Eq, Structural)]
pub enum InstallMode {
    /// Expand the packed root image (`zairoot.img` EROFS, or legacy
    /// `zairoot.squash`) onto the target.
    ExpandSquash,
    /// Copy the live overlayer tree with rsync.
    RsyncLiveTree,
    /// Keep the packed image on disk and boot it as a loop device.
    KeepSquash,
}

impl Default for InstallMode {
    fn default() -> (r: Self)
        ensures
            r == InstallMode::ExpandSquash,
    {
        InstallMode::ExpandSquash
    }
}

#[derive(Clone, Copy, Debug, PartialEq, Eq, Structural)]
pub enum PartitionMode {
    WholeDisk,
    Manual,
}

impl Default for PartitionMode {
    fn default() -> (r: Self)
        ensures
            r == PartitionMode::WholeDisk,
    {
        PartitionMode::WholeDisk
    }
}

/// A block device the installer may target.
#[derive(Debug, PartialEq, Eq)]
pub struct DiskCandidate {
    pub path: String,
    pub model: String,
    pub size_bytes: u64,
    pub is_live_medium: bool,
}

impl Clone for DiskCandidate {
    fn clone(&self) -> (r: Self)
        ensures
            r == *self,
    {
        DiskCandidate {
            path: self.path.clone(),
            model: self.model.clone(),
            size_bytes: self.size_bytes,
            is_live_medium: self.is_live_medium,
        }
    }
}

/// How many low bits an `f64` cannot keep of a 64-bit integer `n`:
/// an `f64` holds 53 significant bits.
pub open spec fn f64_dropped_bits(n: nat) -> nat {
    if n < 0x20_0000_0000_0000 {
        0
    } else if n < 0x40_0000_0000_0000 {
        1
    } else if n < 0x80_0000_0000_0000 {
        2
    } else if n < 0x100_0000_0000_0000 {
        3
    } else if n < 0x200_0000_0000_0000 {
        4
    } else if n < 0x400_0000_0000_0000 {
        5
    } else if n < 0x800_0000_0000_0000 {
        6
    } else if n < 0x1000_0000_0000_0000 {
        7
    } else if n < 0x2000_0000_0000_0000 {
        8
    } else if n < 0x4000_0000_0000_0000 {
        9
    } else if n < 0x8000_0000_0000_0000 {
        10
    } else {
        11
    }
}

/// `2^e` for the exponents `f64_dropped_bits` produces.
pub open spec fn pow2_small(e: nat) -> nat {
    if e == 0 {
        1
    } else if e == 1 {
        2
    } else if e == 2 {
        4
    } else if e == 3 {
        8
    } else if e == 4 {
        16
    } else if e == 5 {
        32
    } else if e == 6 {
        64
    } else if e == 7 {
        128
    } else if e == 8 {
        256
    } else if e == 9 {
        512
    } else if e == 10 {
        1024
    } else {
        2048
    }
}

/// `x / d` rounded to the nearest integer, ties to the even one.
pub open spec fn div_round_half_even(x: nat, d: nat) -> nat
    recommends
        d > 0,
{
    let q = x / d;
    let r = x % d;
    if 2 * r > d || (2 * r == d && q % 2 == 1) {
        q + 1
    } else {
        q
    }
}

/// The value `n as f64` holds, for a 64-bit `n` (round to nearest, ties to even).
pub open spec fn nearest_f64(n: nat) -> nat {
    let p = pow2_small(f64_dropped_bits(n));
    div_round_half_even(n, p) * p
}

/// `n` bytes in GiB, rounded to tenths as `{:.1}` prints the `f64` quotient.
pub open spec fn gib_tenths(n: nat) -> nat {
    div_round_half_even(nearest_f64(n) * 10, 0x4000_0000)
}

/// The text `{:.1}` prints for `n` bytes in GiB.
pub open spec fn gib_text(n: nat) -> Seq<char> {
    dec(gib_tenths(n) / 10) + seq!['.'] + dec(gib_tenths(n) % 10)
}

/// The label the disk picker shows.
pub open spec fn disk_label(d: DiskCandidate) -> Seq<char> {
    d.path@ + " — "@ + d.model@ + " ("@ + gib_text(d.size_bytes as nat) + " GiB)"@
}

fn div_round_half_even_exec(x: u128, d: u128) -> (r: u128)
    requires
        0 < d <= 0x1_0000_0000_0000_0000,
        x < 0x100_0000_0000_0000_0000,
    ensures
        r == div_round_half_even(x as nat, d as nat),
        r <= x / d + 1,
{
    let q = x / d;
    let r = x % d;
    if 2 * r > d || (2 * r == d && q % 2 == 1) {
        q + 1
    } else {
        q
    }
}

fn nearest_f64_exec(n: u64) -> (m: u128)
    ensures
        m == nearest_f64(n as nat),
        m <= 0x1_0000_0000_0000_0800,
{
    let x = n as u128;
    let p: u128 = if x < 0x20_0000_0000_0000 {
        1
    } else if x < 0x40_0000_0000_0000 {
        2
    } else if x < 0x80_0000_0000_0000 {
        4
    } else if x < 0x100_0000_0000_0000 {
        8
    } else if x < 0x200_0000_0000_0000 {
        16
    } else if x < 0x400_0000_0000_0000 {
        32
    } else if x < 0x800_0000_0000_0000 {
        64
    } else if x < 0x1000_0000_0000_0000 {
        128
    } else if x < 0x2000_0000_0000_0000 {
        256
    } else if x < 0x4000_0000_0000_0000 {
        512
    } else if x < 0x8000_0000_0000_0000 {
        1024
    } else {
        2048
    };
    assert(p == pow2_small(f64_dropped_bits(n as nat)));
    let q = div_round_half_even_exec(x, p);
    let k = x / p;
    proof {
        vstd::arithmetic::div_mod::lemma_fundamental_div_mod(x as int, p as int);
        vstd::arithmetic::div_mod::lemma_mod_bound(x as int, p as int);
    }
    assert(q * p <= 0x1_0000_0000_0000_0800) by (nonlinear_arith)
        requires
            q <= k + 1,
            k * p <= x,
            1 <= p <= 2048,
            x < 0x1_0000_0000_0000_0000,
    {
        assert(q * p <= (k + 1) * p);
    }
    q * p
}

/// Tenths of a GiB in `n` bytes, as `{:.1}` rounds `n as f64 / 2^30`.
fn gib_tenths_exec(n: u64) -> (t: u128)
    ensures
        t == gib_tenths(n as nat),
{
    let m = nearest_f64_exec(n);
    div_round_half_even_exec(m * 10, 0x4000_0000)
}

impl DiskCandidate {
    /// `"{path} — {model} ({size in GiB, one decimal} GiB)"`.
    pub fn label(&self) -> (r: String)
        ensures
            r@ == disk_label(*self),
    {
        let t = gib_tenths_exec(self.size_bytes);
        let mut v: Vec<char> = Vec::new();
        extend_str(&mut v, self.path.as_str());
        extend_str(&mut v, " — ");
        extend_str(&mut v, self.model.as_str());
        extend_str(&mut v, " (");
        push_dec(&mut v, t / 10);
        v.push('.');
        push_dec(&mut v, t % 10);
        extend_str(&mut v, " GiB)");
        assert(v@ =~= disk_label(*self));
        from_chars(&v)
    }
}

/// A lowercase ASCII letter.
pub open spec fn is_ascii_lowercase(c: char) -> bool {
    'a' <= c && c <= 'z'
}

pub open spec fn is_username_char(c: char) -> bool {
    is_ascii_lowercase(c) || is_digit(c) || c == '_' || c == '-'
}

/// Lowercase, starts with a letter, `[a-z0-9_-]` only.
pub open spec fn valid_username_spec(s: Seq<char>) -> bool {
    &&& s.len() > 0
    &&& is_ascii_lowercase(s[0])
    &&& forall|i: int| 0 <= i < s.len() ==> is_username_char(#[trigger] s[i])
}

/// Lowercase, starts with a letter, `[a-z0-9_-]` only. Shared by
/// `InstallPlan::validate_user` and the wizard, which checks the username
/// shape before a password exists.
pub fn valid_username(s: &str) -> (r: bool)
    ensures
        r == valid_username_spec(s@),
{
    let c = to_chars(s);
    if c.len() == 0 || !('a' <= c[0] && c[0] <= 'z') {
        return false;
    }
    let mut i: usize = 0;
    while i < c.len()
        invariant
            i <= c.len(),
            c@ == s@,
            forall|j: int| 0 <= j < i ==> is_username_char(#[trigger] c@[j]),
        decreases c.len() - i,
    {
        let ch = c[i];
        if !(('a' <= ch && ch <= 'z') || ('0' <= ch && ch <= '9') || ch == '_' || ch == '-') {
            assert(!is_username_char(c@[i as int]));
            return false;
        }
        i += 1;
    }
    true
}

/// Bytes UTF-8 spends on `c`.
pub open spec fn utf8_width(c: char) -> nat {
    if (c as u32) < 0x80 {
        1
    } else if (c as u32) < 0x800 {
        2
    } else if (c as u32) < 0x10000 {
        3
    } else {
        4
    }
}

/// Length in bytes of the UTF-8 encoding of `s`, what `str::len` reports.
pub open spec fn utf8_len(s: Seq<char>) -> nat
    decreases s.len(),
{
    if s.len() == 0 {
        0
    } else {
        utf8_len(s.drop_last()) + utf8_width(s.last())
    }
}

proof fn lemma_utf8_len_prefix(s: Seq<char>, k: int)
    requires
        0 <= k <= s.len(),
    ensures
        utf8_len(s.take(k)) <= utf8_len(s),
    decreases s.len(),
{
    if k < s.len() {
        assert(s.drop_last().take(k) == s.take(k));
        lemma_utf8_len_prefix(s.drop_last(), k);
    } else {
        assert(s.take(k) == s);
    }
}

/// Whether `s` takes at least `n` bytes in UTF-8.
pub fn utf8_len_at_least(s: &str, n: u64) -> (r: bool)
    ensures
        r == (utf8_len(s@) >= n),
{
    if n == 0 {
        return true;
    }
    let c = to_chars(s);
    let mut total: u64 = 0;
    let mut i: usize = 0;
    assert(c@.take(0) =~= Seq::<char>::empty());
    while i < c.len()
        invariant
            i <= c.len(),
            c@ == s@,
            total == utf8_len(c@.take(i as int)),
            total < n,
        decreases c.len() - i,
    {
        let ch = c[i];
        let w: u64 = if (ch as u32) < 0x80 {
            1
        } else if (ch as u32) < 0x800 {
            2
        } else if (ch as u32) < 0x10000 {
            3
        } else {
            4
        };
        assert(w == utf8_width(c@[i as int]));
        assert(c@.take(i + 1).drop_last() == c@.take(i as int));
        if w >= n - total {
            i += 1;
            proof {
                lemma_utf8_len_prefix(c@, i as int);
            }
            return true;
        }
        total = total + w;
        i += 1;
    }
    assert(c@.take(c@.len() as int) == c@);
    false
}

/// Serializable install plan built by the wizard or an auto-install config.
#[derive(Debug)]
pub struct InstallPlan {
    pub locale: String,
    pub keyboard: String,
    /// IANA zone name (e.g. "Asia/Karachi"), checked against the live
    /// zoneinfo tree when it is chosen.
    pub timezone: String,
    pub disk: Option<DiskCandidate>,
    pub partition_mode: PartitionMode,
    pub full_name: String,
    pub username: String,
    pub password: String,
    pub hostname: String,
    pub mode: InstallMode,
    /// When true, never touch real block devices: write under `dry_run_root`.
    pub dry_run: bool,
    pub dry_run_root: String,
    pub squash_path: Option<String>,
    pub live_overlayer: Option<String>,
    pub zaisys_path: Option<String>,
    /// EFI System Partition size in MiB.
    pub efi_size_mib: u64,
    /// Filled after partitioning, e.g. /dev/sda1.
    pub efi_part: Option<String>,
    /// Filled after partitioning, e.g. /dev/sda2.
    pub root_part: Option<String>,
    /// Filled after formatting (UUID of the root partition).
    pub root_uuid: Option<String>,
}

fn clone_opt_string(o: &Option<String>) -> (r: Option<String>)
    ensures
        r == *o,
{
    match o {
        Some(s) => Some(s.clone()),
        None => None,
    }
}

impl Clone for InstallPlan {
    fn clone(&self) -> (r: Self)
        ensures
            r == *self,
    {
        InstallPlan {
            locale: self.locale.clone(),
            keyboard: self.keyboard.clone(),
            timezone: self.timezone.clone(),
            disk: match &self.disk {
                Some(d) => Some(d.clone()),
                None => None,
            },
            partition_mode: self.partition_mode,
            full_name: self.full_name.clone(),
            username: self.username.clone(),
            password: self.password.clone(),
            hostname: self.hostname.clone(),
            mode: self.mode,
            dry_run: self.dry_run,
            dry_run_root: self.dry_run_root.clone(),
            squash_path: clone_opt_string(&self.squash_path),
            live_overlayer: clone_opt_string(&self.live_overlayer),
            zaisys_path: clone_opt_string(&self.zaisys_path),
            efi_size_mib: self.efi_size_mib,
            efi_part: clone_opt_string(&self.efi_part),
            root_part: clone_opt_string(&self.root_part),
            root_uuid: clone_opt_string(&self.root_uuid),
        }
    }
}

impl InstallPlan {
    /// The plan as it is recorded on the target: everything but the
    /// password, which is left empty.
    pub fn redacted(&self) -> (r: InstallPlan)
        ensures
            r == (InstallPlan { password: r.password, ..*self }),
            r.password@.len() == 0,
    {
        let mut r = self.clone();
        r.password = String::new();
        r
    }
}

/// `v` when the variable is set, `default` otherwise.
pub open spec fn or_default(v: Option<Seq<char>>, default: Seq<char>) -> Seq<char> {
    match v {
        Some(s) => s,
        None => default,
    }
}

/// The ESP size the environment asks for, 512 MiB when unset or not a number.
pub open spec fn efi_size_from(v: Option<Seq<char>>) -> u64 {
    match v {
        Some(s) => match parse_u64_spec(s) {
            Some(n) => n,
            None => 512,
        },
        None => 512,
    }
}

/// The plan values the environment decides.
pub struct PlanDefaults {
    pub locale: Seq<char>,
    pub keyboard: Seq<char>,
    pub timezone: Seq<char>,
    pub hostname: Seq<char>,
    pub dry_run_root: Seq<char>,
    pub efi_size_mib: u64,
    pub squash_path: Option<Seq<char>>,
    pub live_overlayer: Option<Seq<char>>,
    pub zaisys_path: Option<Seq<char>>,
}

/// Values from `ZAINIUM_*` variables where set, the installer's defaults
/// otherwise.
pub open spec fn plan_defaults(env: EnvVars) -> PlanDefaults {
    PlanDefaults {
        locale: or_default(env.lookup("ZAINIUM_LOCALE"@), "en_US.UTF-8"@),
        keyboard: or_default(env.lookup("ZAINIUM_KEYBOARD"@), "us"@),
        timezone: or_default(env.lookup("ZAINIUM_TIMEZONE"@), "UTC"@),
        hostname: or_default(env.lookup("ZAINIUM_HOSTNAME"@), "zainium"@),
        dry_run_root: or_default(env.lookup("ZAINIUM_DRY_RUN_ROOT"@), "/tmp/zainium-install-test"@),
        efi_size_mib: efi_size_from(env.lookup("ZAINIUM_EFI_SIZE_MIB"@)),
        squash_path: env.lookup("ZAINIUM_SQUASH"@),
        live_overlayer: env.lookup("ZAINIUM_OVERLAYER"@),
        zaisys_path: env.lookup("ZAINIUM_ZAISYS"@),
    }
}

fn string_or(v: Option<String>, default: &str) -> (r: String)
    ensures
        r@ == or_default(opt_view(v), default@),
{
    match v {
        Some(s) => s,
        None => owned(default),
    }
}

impl InstallPlan {
    /// The starting plan: values from `ZAINIUM_*` variables where set,
    /// the installer's defaults otherwise.
    pub fn from_env(env: &EnvVars) -> (p: InstallPlan)
        ensures
            p.dry_run_root@ == plan_defaults(*env).dry_run_root,
            p.efi_size_mib == plan_defaults(*env).efi_size_mib,
            p.locale@ == plan_defaults(*env).locale,
            p.keyboard@ == plan_defaults(*env).keyboard,
            p.timezone@ == plan_defaults(*env).timezone,
            p.hostname@ == plan_defaults(*env).hostname,
            opt_view(p.squash_path) == plan_defaults(*env).squash_path,
            opt_view(p.live_overlayer) == plan_defaults(*env).live_overlayer,
            opt_view(p.zaisys_path) == plan_defaults(*env).zaisys_path,
            p.disk.is_none(),
            p.partition_mode == PartitionMode::WholeDisk,
            p.full_name@.len() == 0,
            p.username@.len() == 0,
            p.password@.len() == 0,
            p.mode == InstallMode::ExpandSquash,
            p.dry_run,
            p.efi_part.is_none(),
            p.root_part.is_none(),
            p.root_uuid.is_none(),
    {
        let dry_run_root = string_or(env.get("ZAINIUM_DRY_RUN_ROOT"), "/tmp/zainium-install-test");
        let efi_size_mib = match env.get("ZAINIUM_EFI_SIZE_MIB") {
            Some(s) => match parse_u64(s.as_str()) {
                Some(n) => n,
                None => 512,
            },
            None => 512,
        };
        InstallPlan {
            locale: string_or(env.get("ZAINIUM_LOCALE"), "en_US.UTF-8"),
            keyboard: string_or(env.get("ZAINIUM_KEYBOARD"), "us"),
            timezone: string_or(env.get("ZAINIUM_TIMEZONE"), "UTC"),
            disk: None,
            partition_mode: PartitionMode::WholeDisk,
            full_name: String::new(),
            username: String::new(),
            password: String::new(),
            hostname: string_or(env.get("ZAINIUM_HOSTNAME"), "zainium"),
            mode: InstallMode::ExpandSquash,
            dry_run: true,
            dry_run_root,
            squash_path: env.get("ZAINIUM_SQUASH"),
            live_overlayer: env.get("ZAINIUM_OVERLAYER"),
            zaisys_path: env.get("ZAINIUM_ZAISYS"),
            efi_size_mib,
            efi_part: None,
            root_part: None,
            root_uuid: None,
        }
    }

    /// Username shape and password length (at least 4 bytes). Both failures
    /// are reported as `"error-username"`.
    pub fn validate_user(&self) -> (r: Result<(), &'static str>)
        ensures
            r is Ok <==> (valid_username_spec(self.username@) && utf8_len(self.password@) >= 4),
            r matches Err(e) ==> e@ == "error-username"@,
    {
        if !valid_username(self.username.as_str()) {
            return Err("error-username");
        }
        if !utf8_len_at_least(self.password.as_str(), 4) {
            return Err("error-username");
        }
        Ok(())
    }
}

impl Default for InstallPlan {
    /// The starting plan for an empty environment: every `ZAINIUM_*`
    /// default applies.
    fn default() -> (p: Self)
        ensures
            p.dry_run_root@ == "/tmp/zainium-install-test"@,
            p.efi_size_mib == 512,
            p.locale@ == "en_US.UTF-8"@,
            p.keyboard@ == "us"@,
            p.timezone@ == "UTC"@,
            p.hostname@ == "zainium"@,
            p.squash_path.is_none(),
            p.live_overlayer.is_none(),
            p.zaisys_path.is_none(),
            p.disk.is_none(),
            p.partition_mode == PartitionMode::WholeDisk,
            p.full_name@.len() == 0,
            p.username@.len() == 0,
            p.password@.len() == 0,
            p.mode == InstallMode::ExpandSquash,
            p.dry_run,
            p.efi_part.is_none(),
            p.root_part.is_none(),
            p.root_uuid.is_none(),
    {
        let env = EnvVars::empty();
        InstallPlan::from_env(&env)
    }
}

} // verus!
