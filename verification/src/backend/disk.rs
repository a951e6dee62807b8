//! Disks: the `lsblk` listing, live-medium detection, partition naming and
//! the checks that guard a whole-disk GPT layout (ESP FAT32 + ROOT ext4).
use vstd::prelude::*;

use crate::backend::elevate_cmd::{cmd_view, CommandLine};
use crate::model::install_plan::{DiskCandidate, InstallPlan, PartitionMode};
use crate::text::{
    dec, ends_with, extend_chars, extend_str, from_chars, index_of_char, is_ws, is_ws_exec,
    lines, lines_exec, matches_at_exec, owned, parse_u64, parse_u64_spec, push_dec, seqs_of,
    starts_with, starts_with_exec, str_eq, strings_view, to_chars, trim, trim_exec, trim_start,
};

verus! {

// ---------------------------------------------------------------------
// Partition naming
// ---------------------------------------------------------------------

/// The device name: the text after the last `/`.
pub open spec fn device_name(disk: Seq<char>) -> Seq<char> {
    disk.skip(crate::backend::assets::rindex_of_char(disk, '/') + 1)
}

/// Devices whose partitions are named `<disk>p<n>`.
pub open spec fn uses_p_separator(name: Seq<char>) -> bool {
    starts_with(name, "nvme"@) || starts_with(name, "mmcblk"@) || starts_with(name, "loop"@)
        || starts_with(name, "nbd"@)
}

pub open spec fn partition_path_spec(disk: Seq<char>, n: nat) -> Seq<char> {
    if uses_p_separator(device_name(disk)) {
        disk + "p"@ + dec(n)
    } else {
        disk + dec(n)
    }
}

proof fn lemma_rindex_past_free_tail(a: Seq<char>, b: Seq<char>, c: char)
    requires
        forall|i: int| 0 <= i < b.len() ==> b[i] != c,
    ensures
        crate::backend::assets::rindex_of_char(a + b, c) == crate::backend::assets::rindex_of_char(
            a,
            c,
        ),
    decreases b.len(),
{
    if b.len() > 0 {
        assert((a + b).drop_last() =~= a + b.drop_last());
        assert((a + b).last() == b.last());
        lemma_rindex_past_free_tail(a, b.drop_last(), c);
    } else {
        assert(a + b =~= a);
    }
}

/// Partition naming: for a disk `dir/name` (or a bare `name`), where
/// `name` holds no `/`, partition `n` is `<disk>p<n>` when the name
/// starts with `nvme`, `mmcblk`, `loop` or `nbd`, and `<disk><n>` for
/// every other device (`sda`, `vda`, `hda`, `xvda`, ...).
pub proof fn lemma_partition_naming(dir: Seq<char>, name: Seq<char>, n: nat)
    requires
        dir.len() == 0 || dir.last() == '/',
        forall|i: int| 0 <= i < name.len() ==> name[i] != '/',
    ensures
        (starts_with(name, "nvme"@) || starts_with(name, "mmcblk"@) || starts_with(name, "loop"@)
            || starts_with(name, "nbd"@)) ==> partition_path_spec(dir + name, n) == dir + name
            + seq!['p'] + dec(n),
        !(starts_with(name, "nvme"@) || starts_with(name, "mmcblk"@) || starts_with(name, "loop"@)
            || starts_with(name, "nbd"@)) ==> partition_path_spec(dir + name, n) == dir + name
            + dec(n),
{
    reveal_strlit("p");
    lemma_rindex_past_free_tail(dir, name, '/');
    let r = crate::backend::assets::rindex_of_char(dir, '/');
    if dir.len() > 0 {
        assert(r == dir.len() - 1);
    } else {
        assert(r == -1);
    }
    assert((dir + name).skip(dir.len() as int) =~= name);
    assert(device_name(dir + name) == name);
}

/// Path of the `n`th partition (1-based) of `disk`: `/dev/sda1`, but
/// `/dev/nvme0n1p1` for NVMe, MMC, loop and NBD devices.
pub fn partition_path(disk: &str, n: u32) -> (r: String)
    ensures
        r@ == partition_path_spec(disk@, n as nat),
{
    let d = to_chars(disk);
    assert(d@.take(d@.len() as int) == d@);
    let k = crate::backend::assets::rindex_exec(&d, d.len(), '/');
    let start: usize = match k {
        Some(k) => k + 1,
        None => 0,
    };
    let mut name: Vec<char> = Vec::new();
    let mut i = start;
    while i < d.len()
        invariant
            start <= i <= d.len(),
            name@ == d@.subrange(start as int, i as int),
        decreases d.len() - i,
    {
        name.push(d[i]);
        i += 1;
        assert(name@ == d@.subrange(start as int, i as int));
    }
    assert(name@ == device_name(disk@));
    let p_sep = starts_with_exec(&name, &to_chars("nvme")) || starts_with_exec(
        &name,
        &to_chars("mmcblk"),
    ) || starts_with_exec(&name, &to_chars("loop")) || starts_with_exec(&name, &to_chars("nbd"));
    let mut v: Vec<char> = Vec::new();
    extend_chars(&mut v, &d);
    if p_sep {
        v.push('p');
    }
    push_dec(&mut v, n as u128);
    proof {
        reveal_strlit("p");
    }
    assert(v@ =~= partition_path_spec(disk@, n as nat));
    from_chars(&v)
}

// ---------------------------------------------------------------------
// Live-medium detection
// ---------------------------------------------------------------------

pub open spec fn is_ascii_digit(c: char) -> bool {
    '0' <= c && c <= '9'
}

/// `s` without its trailing ASCII digits.
pub open spec fn trim_end_digits(s: Seq<char>) -> Seq<char>
    decreases s.len(),
{
    if s.len() > 0 && is_ascii_digit(s.last()) {
        trim_end_digits(s.drop_last())
    } else {
        s
    }
}

/// The whole-disk device behind a mount source: `/dev/sda2` → `/dev/sda`,
/// `/dev/nvme0n1p2` → `/dev/nvme0n1`; none for a source outside `/dev/`.
pub open spec fn normalize_block_dev_spec(source: Seq<char>) -> Option<Seq<char>> {
    let s = trim(source);
    if !starts_with(s, "/dev/"@) {
        None
    } else {
        let t = trim_end_digits(s);
        let base = if t.len() > 0 && t.last() == 'p' {
            t.drop_last()
        } else {
            t
        };
        if base == "/dev/"@ || base.len() == 0 {
            Some(s)
        } else {
            Some(base)
        }
    }
}

pub fn normalize_block_dev(source: &str) -> (r: Option<String>)
    ensures
        crate::env::opt_view(r) == normalize_block_dev_spec(source@),
{
    let raw = to_chars(source);
    let s = trim_exec(&raw);
    let dev = to_chars("/dev/");
    if !starts_with_exec(&s, &dev) {
        return None;
    }
    let mut end = s.len();
    assert(s@.take(end as int) == s@);
    while end > 0 && '0' <= s[end - 1] && s[end - 1] <= '9'
        invariant
            end <= s@.len(),
            trim_end_digits(s@) == trim_end_digits(s@.take(end as int)),
        decreases end,
    {
        assert(s@.take(end as int).drop_last() == s@.take(end - 1));
        end -= 1;
    }
    let ghost t = s@.take(end as int);
    if end > 0 && s[end - 1] == 'p' {
        end -= 1;
    }
    let mut base: Vec<char> = Vec::new();
    let mut i: usize = 0;
    while i < end
        invariant
            i <= end <= s@.len(),
            base@ == s@.take(i as int),
        decreases end - i,
    {
        base.push(s[i]);
        i += 1;
        assert(base@ =~= s@.take(i as int));
    }
    assert(base@ == (if t.len() > 0 && t.last() == 'p' {
        t.drop_last()
    } else {
        t
    }));
    if base.len() == 0 || crate::text::chars_eq(&base, &dev) {
        Some(from_chars(&s))
    } else {
        Some(from_chars(&base))
    }
}

/// Whether a disk path belongs to one of the devices backing the live
/// system (it is one, or one is its prefix).
pub open spec fn is_live_path(path: Seq<char>, live: Seq<Seq<char>>) -> bool {
    exists|i: int| 0 <= i < live.len() && (live[i] == path || starts_with(path, live[i]))
}

// ---------------------------------------------------------------------
// lsblk parsing
// ---------------------------------------------------------------------

/// Index of the first whitespace character of `s`, or `s.len()`.
pub open spec fn index_of_ws(s: Seq<char>) -> int
    decreases s.len(),
{
    if s.len() == 0 {
        0
    } else if is_ws(s[0]) {
        0
    } else {
        1 + index_of_ws(s.drop_first())
    }
}

pub proof fn lemma_index_of_ws(s: Seq<char>)
    ensures
        0 <= index_of_ws(s) <= s.len(),
        s.len() > 0 && !is_ws(s[0]) ==> index_of_ws(s) >= 1,
        index_of_ws(s) < s.len() ==> is_ws(s[index_of_ws(s)]),
        forall|j: int| 0 <= j < index_of_ws(s) ==> !is_ws(s[j]),
    decreases s.len(),
{
    if s.len() > 0 && !is_ws(s[0]) {
        lemma_index_of_ws(s.drop_first());
        assert forall|j: int| 0 <= j < index_of_ws(s) implies !is_ws(s[j]) by {
            if j > 0 {
                assert(s[j] == s.drop_first()[j - 1]);
            }
        }
    }
}

pub proof fn lemma_trim_start(s: Seq<char>)
    ensures
        trim_start(s).len() <= s.len(),
        trim_start(s).len() > 0 ==> !is_ws(trim_start(s)[0]),
        trim_start(s) == s.skip(s.len() - trim_start(s).len()),
    decreases s.len(),
{
    if s.len() > 0 && is_ws(s[0]) {
        lemma_trim_start(s.drop_first());
        assert(s.drop_first().skip(s.drop_first().len() - trim_start(s).len()) =~= s.skip(
            s.len() - trim_start(s).len(),
        ));
    } else {
        assert(s.skip(0) == s);
    }
}

/// The whitespace-separated words of `s`, as `split_whitespace` yields them.
pub open spec fn words(s: Seq<char>) -> Seq<Seq<char>>
    decreases s.len(),
{
    let t = trim_start(s);
    if t.len() == 0 {
        Seq::empty()
    } else {
        let k = index_of_ws(t);
        proof {
            lemma_trim_start(s);
            lemma_index_of_ws(t);
        }
        seq![t.take(k)] + words(t.skip(k))
    }
}

/// Words joined with single spaces.
pub open spec fn join_spaces(ws: Seq<Seq<char>>) -> Seq<char>
    decreases ws.len(),
{
    if ws.len() == 0 {
        Seq::empty()
    } else if ws.len() == 1 {
        ws[0]
    } else {
        join_spaces(ws.drop_last()) + " "@ + ws.last()
    }
}

/// A disk as the specifications see it.
pub struct DiskView {
    pub path: Seq<char>,
    pub model: Seq<char>,
    pub size_bytes: u64,
    pub is_live_medium: bool,
}

pub open spec fn disk_view(d: DiskCandidate) -> DiskView {
    DiskView {
        path: d.path@,
        model: d.model@,
        size_bytes: d.size_bytes,
        is_live_medium: d.is_live_medium,
    }
}

pub open spec fn disk_views(v: Seq<DiskCandidate>) -> Seq<DiskView> {
    Seq::new(v.len(), |i: int| disk_view(v[i]))
}

/// The disk one `lsblk -b -dn -o NAME,SIZE,MODEL,TYPE` line describes, if
/// it describes a disk: NAME, SIZE (0 when not a number), the MODEL words
/// ("disk" when there are none), live when it backs the live system.
pub open spec fn lsblk_line(line: Seq<char>, live: Seq<Seq<char>>) -> Option<DiskView> {
    let parts = words(line);
    if parts.len() < 3 || parts.last() != "disk"@ {
        None
    } else {
        let size = match parse_u64_spec(parts[1]) {
            Some(n) => n,
            None => 0,
        };
        let model = if parts.len() > 3 {
            join_spaces(parts.subrange(2, parts.len() - 1))
        } else {
            Seq::empty()
        };
        let path = "/dev/"@ + parts[0];
        Some(
            DiskView {
                path,
                model: if model.len() == 0 {
                    "disk"@
                } else {
                    model
                },
                size_bytes: size,
                is_live_medium: is_live_path(path, live),
            },
        )
    }
}

/// The disks an `lsblk` listing describes, in order.
pub open spec fn lsblk_disks(ls: Seq<Seq<char>>, live: Seq<Seq<char>>) -> Seq<DiskView>
    decreases ls.len(),
{
    if ls.len() == 0 {
        Seq::empty()
    } else {
        lsblk_disks(ls.drop_last(), live) + match lsblk_line(ls.last(), live) {
            Some(d) => seq![d],
            None => Seq::<DiskView>::empty(),
        }
    }
}

/// The words of `s`.
pub fn words_exec(s: &[char]) -> (r: Vec<Vec<char>>)
    ensures
        seqs_of(r@) == words(s@),
{
    let mut out: Vec<Vec<char>> = Vec::new();
    let mut i: usize = 0;
    assert(s@.skip(0) == s@);
    loop
        invariant
            i <= s.len(),
            seqs_of(out@) + words(s@.skip(i as int)) == words(s@),
        decreases s.len() - i,
    {
        let ghost rest = s@.skip(i as int);
        let mut a = i;
        while a < s.len() && is_ws_exec(s[a])
            invariant
                i <= a <= s.len(),
                trim_start(rest) == trim_start(s@.skip(a as int)),
            decreases s.len() - a,
        {
            assert(s@.skip(a as int).drop_first() == s@.skip(a + 1));
            a += 1;
        }
        assert(trim_start(rest) == s@.skip(a as int));
        if a == s.len() {
            assert(words(rest) == Seq::<Seq<char>>::empty());
            assert(seqs_of(out@) + Seq::<Seq<char>>::empty() == seqs_of(out@));
            return out;
        }
        let ghost t = s@.skip(a as int);
        let mut b = a;
        let mut w: Vec<char> = Vec::new();
        while b < s.len() && !is_ws_exec(s[b])
            invariant
                a <= b <= s.len(),
                w@ == s@.subrange(a as int, b as int),
                index_of_ws(t) == (b - a) + index_of_ws(s@.skip(b as int)),
            decreases s.len() - b,
        {
            assert(s@.skip(b as int).drop_first() == s@.skip(b + 1));
            w.push(s[b]);
            b += 1;
            assert(w@ == s@.subrange(a as int, b as int));
        }
        assert(index_of_ws(s@.skip(b as int)) == 0);
        assert(t.take(b - a) == w@);
        assert(t.skip(b - a) == s@.skip(b as int));
        let ghost old_out = seqs_of(out@);
        out.push(w);
        assert(seqs_of(out@) =~= old_out.push(t.take(b - a)));
        i = b;
        assert(seqs_of(out@) + words(s@.skip(i as int)) =~= old_out + words(rest));
    }
}

fn join_spaces_exec(ws: &Vec<Vec<char>>, from: usize, to: usize) -> (r: Vec<char>)
    requires
        from <= to <= ws@.len(),
    ensures
        r@ == join_spaces(seqs_of(ws@).subrange(from as int, to as int)),
{
    let mut out: Vec<char> = Vec::new();
    let mut i = from;
    assert(seqs_of(ws@).subrange(from as int, from as int) =~= Seq::<Seq<char>>::empty());
    while i < to
        invariant
            from <= i <= to,
            to <= ws@.len(),
            out@ == join_spaces(seqs_of(ws@).subrange(from as int, i as int)),
        decreases to - i,
    {
        let ghost pre = seqs_of(ws@).subrange(from as int, i as int);
        let ghost next = seqs_of(ws@).subrange(from as int, i + 1);
        assert(next.drop_last() == pre);
        assert(next.last() == ws@[i as int]@);
        if i > from {
            let ghost before = out@;
            out.push(' ');
            extend_chars(&mut out, &ws[i]);
            proof {
                reveal_strlit(" ");
                assert(next.len() >= 2);
                assert(out@ =~= before + " "@ + next.last());
            }
            assert(out@ =~= join_spaces(next));
        } else {
            extend_chars(&mut out, &ws[i]);
            assert(next.len() == 1);
            assert(out@ =~= join_spaces(next));
        }
        i += 1;
    }
    out
}

fn is_live_exec(path: &[char], live: &Vec<String>) -> (r: bool)
    ensures
        r == is_live_path(path@, strings_view(live@)),
{
    let mut i: usize = 0;
    while i < live.len()
        invariant
            i <= live@.len(),
            forall|j: int|
                0 <= j < i ==> !(strings_view(live@)[j] == path@ || starts_with(
                    path@,
                    strings_view(live@)[j],
                )),
        decreases live.len() - i,
    {
        let d = to_chars(live[i].as_str());
        if crate::text::chars_eq(&d, path) || starts_with_exec(path, &d) {
            assert(strings_view(live@)[i as int] == d@);
            return true;
        }
        i += 1;
    }
    false
}

/// The disks listed by `lsblk -b -dn -o NAME,SIZE,MODEL,TYPE` output
/// `text`; `live` are the whole-disk devices backing the live system.
pub fn parse_lsblk(text: &str, live: &Vec<String>) -> (r: Vec<DiskCandidate>)
    ensures
        disk_views(r@) == lsblk_disks(lines(text@), strings_view(live@)),
{
    let c = to_chars(text);
    let ls = lines_exec(&c);
    let mut out: Vec<DiskCandidate> = Vec::new();
    let mut i: usize = 0;
    assert(seqs_of(ls@).take(0) =~= Seq::<Seq<char>>::empty());
    while i < ls.len()
        invariant
            i <= ls@.len(),
            seqs_of(ls@) == lines(text@),
            disk_views(out@) == lsblk_disks(seqs_of(ls@).take(i as int), strings_view(live@)),
        decreases ls.len() - i,
    {
        let ghost line = seqs_of(ls@)[i as int];
        assert(seqs_of(ls@).take(i + 1).drop_last() == seqs_of(ls@).take(i as int));
        assert(seqs_of(ls@).take(i + 1).last() == line);
        let ghost old_out = disk_views(out@);
        let parts = words_exec(&ls[i]);
        let n = parts.len();
        let disk_word = to_chars("disk");
        if n >= 3 && crate::text::chars_eq(&parts[n - 1], &disk_word) {
            let size_text = from_chars(&parts[1]);
            let size = match parse_u64(size_text.as_str()) {
                Some(v) => v,
                None => 0,
            };
            let model = if n > 3 {
                join_spaces_exec(&parts, 2, n - 1)
            } else {
                Vec::new()
            };
            let mut path: Vec<char> = Vec::new();
            extend_str(&mut path, "/dev/");
            extend_chars(&mut path, &parts[0]);
            let live_flag = is_live_exec(&path, live);
            let model_s = if model.len() == 0 {
                owned("disk")
            } else {
                from_chars(&model)
            };
            let d = DiskCandidate {
                path: from_chars(&path),
                model: model_s,
                size_bytes: size,
                is_live_medium: live_flag,
            };
            assert(seqs_of(parts@)[n - 1] == parts@[n - 1]@);
            assert(seqs_of(parts@).last() == "disk"@);
            assert(seqs_of(parts@)[0] == parts@[0]@);
            assert(seqs_of(parts@)[1] == parts@[1]@);
            assert(disk_view(d) == lsblk_line(line, strings_view(live@))->0);
            out.push(d);
            assert(disk_views(out@) =~= old_out.push(disk_view(d)));
        } else {
            assert(n >= 3 ==> seqs_of(parts@).last() == parts@[n - 1]@);
            assert(lsblk_line(line, strings_view(live@)) is None);
            assert(disk_views(out@) =~= old_out);
        }
        i += 1;
        assert(disk_views(out@) =~= lsblk_disks(seqs_of(ls@).take(i as int), strings_view(live@)));
    }
    assert(seqs_of(ls@).take(i as int) == seqs_of(ls@));
    out
}

// ---------------------------------------------------------------------
// Partitioning
// ---------------------------------------------------------------------

pub open spec fn min_disk_bytes() -> nat {
    4 * 1024 * 1024 * 1024
}

/// Why the whole-disk layout may not be written to the plan's disk, if it
/// may not: no disk, the live medium, manual mode, or a known size under
/// 4 GiB.
pub open spec fn partition_refusal(plan: InstallPlan) -> Option<Seq<char>> {
    match plan.disk {
        None => Some("no disk selected"@),
        Some(d) => if d.is_live_medium {
            Some("refusing to partition live medium"@)
        } else if plan.partition_mode == PartitionMode::Manual {
            Some("manual partition mode not implemented — use whole-disk"@)
        } else if d.size_bytes > 0 && d.size_bytes < min_disk_bytes() {
            Some("disk too small (need ≥ 4 GiB)"@)
        } else {
            None
        },
    }
}

/// The disk to partition, when the plan allows partitioning it.
pub fn check_partition_target(plan: &InstallPlan) -> (r: Result<DiskCandidate, String>)
    ensures
        r is Ok <==> partition_refusal(*plan) is None,
        r matches Ok(d) ==> plan.disk == Some(d),
        r matches Err(e) ==> partition_refusal(*plan) == Some(e@),
{
    let disk = match &plan.disk {
        Some(d) => d.clone(),
        None => {
            return Err(owned("no disk selected"));
        },
    };
    if disk.is_live_medium {
        return Err(owned("refusing to partition live medium"));
    }
    if plan.partition_mode == PartitionMode::Manual {
        return Err(owned("manual partition mode not implemented — use whole-disk"));
    }
    if disk.size_bytes > 0 && disk.size_bytes < 4 * 1024 * 1024 * 1024 {
        return Err(owned("disk too small (need ≥ 4 GiB)"));
    }
    Ok(disk)
}

/// The sfdisk script: GPT, an EFI System partition of `efi_size_mib` MiB,
/// and a Linux root partition filling the rest.
pub fn sfdisk_script(efi_size_mib: u64) -> (s: String)
    ensures
        s@ == "label: gpt\n,"@ + dec(efi_size_mib as nat) + "M,U\n,,L\n"@,
{
    let mut v: Vec<char> = Vec::new();
    extend_str(&mut v, "label: gpt\n,");
    push_dec(&mut v, efi_size_mib as u128);
    extend_str(&mut v, "M,U\n,,L\n");
    from_chars(&v)
}

/// The dry-run stand-ins the partition job records instead of real
/// partitions.
pub fn mark_dry_run_partitions(plan: &mut InstallPlan)
    ensures
        final(plan).efi_part matches Some(e) && e@ == "dry-run-efi"@,
        final(plan).root_part matches Some(r) && r@ == "dry-run-root"@,
        final(plan).dry_run == old(plan).dry_run,
        final(plan).disk == old(plan).disk,
        final(plan).root_uuid == old(plan).root_uuid,
{
    plan.efi_part = Some(owned("dry-run-efi"));
    plan.root_part = Some(owned("dry-run-root"));
}

/// Whether the plan is a dry run whose partitions are the stand-ins, so
/// format, mount and unmount only log.
pub fn is_dry_run_stub(plan: &InstallPlan) -> (r: bool)
    ensures
        r == (plan.dry_run && (plan.efi_part matches Some(e) && e@ == "dry-run-efi"@)),
{
    plan.dry_run && match &plan.efi_part {
        Some(e) => str_eq(e.as_str(), "dry-run-efi"),
        None => false,
    }
}


// ---------------------------------------------------------------------
// The privileged commands of the disk jobs
// ---------------------------------------------------------------------

fn cmd1(program: &'static str, a: &str) -> (c: CommandLine)
    ensures
        cmd_view(c) == (program@, seq![a@]),
{
    let mut args: Vec<String> = Vec::new();
    args.push(owned(a));
    assert(strings_view(args@) =~= seq![a@]);
    CommandLine { program, args }
}

fn cmd2(program: &'static str, a: &str, b: &str) -> (c: CommandLine)
    ensures
        cmd_view(c) == (program@, seq![a@, b@]),
{
    let mut args: Vec<String> = Vec::new();
    args.push(owned(a));
    args.push(owned(b));
    assert(strings_view(args@) =~= seq![a@, b@]);
    CommandLine { program, args }
}

/// Where the sfdisk script is written for the process `pid`.
pub fn sfdisk_script_path(pid: u32) -> (p: String)
    ensures
        p@ == "/tmp/carve-sfdisk-"@ + dec(pid as nat) + ".script"@,
{
    let mut v: Vec<char> = Vec::new();
    extend_str(&mut v, "/tmp/carve-sfdisk-");
    push_dec(&mut v, pid as u128);
    extend_str(&mut v, ".script");
    from_chars(&v)
}

/// The partition job's commands: wipe the old signatures, feed the
/// sfdisk script (through `sh`, since `elevate` does not redirect), let
/// udev settle, and have the kernel re-read the table. Only the sfdisk
/// step's failure fails the job.
pub struct PartitionCommands {
    pub wipe: CommandLine,
    pub write_table: CommandLine,
    pub settle: CommandLine,
    pub reread: CommandLine,
}

pub fn partition_commands(disk: &str, script_path: &str) -> (c: PartitionCommands)
    ensures
        cmd_view(c.wipe) == ("wipefs"@, seq!["-a"@, disk@]),
        cmd_view(c.write_table) == ("sh"@, seq![
            "-c"@,
            "sfdisk --force "@ + disk@ + " < "@ + script_path@,
        ]),
        cmd_view(c.settle) == ("udevadm"@, seq!["settle"@]),
        cmd_view(c.reread) == ("partprobe"@, seq![disk@]),
{
    let mut line: Vec<char> = Vec::new();
    extend_str(&mut line, "sfdisk --force ");
    extend_str(&mut line, disk);
    extend_str(&mut line, " < ");
    extend_str(&mut line, script_path);
    let line_s = from_chars(&line);
    PartitionCommands {
        wipe: cmd2("wipefs", "-a", disk),
        write_table: cmd2("sh", "-c", line_s.as_str()),
        settle: cmd1("udevadm", "settle"),
        reread: cmd1("partprobe", disk),
    }
}

/// The format job's commands: FAT32 labelled `ZAINIUMEFI` on the ESP,
/// ext4 labelled `zainium-root` on the root partition.
pub fn format_commands(efi: &str, root: &str) -> (v: Vec<CommandLine>)
    ensures
        v@.len() == 2,
        cmd_view(v@[0]) == ("mkfs.vfat"@, seq!["-F"@, "32"@, "-n"@, "ZAINIUMEFI"@, efi@]),
        cmd_view(v@[1]) == ("mkfs.ext4"@, seq!["-F"@, "-L"@, "zainium-root"@, root@]),
{
    let mut a: Vec<String> = Vec::new();
    a.push(owned("-F"));
    a.push(owned("32"));
    a.push(owned("-n"));
    a.push(owned("ZAINIUMEFI"));
    a.push(owned(efi));
    assert(strings_view(a@) =~= seq!["-F"@, "32"@, "-n"@, "ZAINIUMEFI"@, efi@]);
    let mut b: Vec<String> = Vec::new();
    b.push(owned("-F"));
    b.push(owned("-L"));
    b.push(owned("zainium-root"));
    b.push(owned(root));
    assert(strings_view(b@) =~= seq!["-F"@, "-L"@, "zainium-root"@, root@]);
    let mut v: Vec<CommandLine> = Vec::new();
    v.push(CommandLine { program: "mkfs.vfat", args: a });
    v.push(CommandLine { program: "mkfs.ext4", args: b });
    v
}

/// The root UUID lookup made through `elevate` when a plain `blkid` could
/// not read the fresh root partition.
pub fn blkid_root_command(root: &str) -> (c: CommandLine)
    ensures
        cmd_view(c) == ("blkid"@, seq!["-s"@, "UUID"@, "-o"@, "value"@, root@]),
{
    let mut a: Vec<String> = Vec::new();
    a.push(owned("-s"));
    a.push(owned("UUID"));
    a.push(owned("-o"));
    a.push(owned("value"));
    a.push(owned(root));
    assert(strings_view(a@) =~= seq!["-s"@, "UUID"@, "-o"@, "value"@, root@]);
    CommandLine { program: "blkid", args: a }
}

/// The mount job's commands: the root partition on the target root, then
/// the ESP on its `efi` directory.
pub fn mount_commands(root_part: &str, efi_part: &str, root_dir: &str, efi_dir: &str) -> (v: Vec<
    CommandLine,
>)
    ensures
        v@.len() == 2,
        cmd_view(v@[0]) == ("mount"@, seq![root_part@, root_dir@]),
        cmd_view(v@[1]) == ("mount"@, seq![efi_part@, efi_dir@]),
{
    let mut v: Vec<CommandLine> = Vec::new();
    v.push(cmd2("mount", root_part, root_dir));
    v.push(cmd2("mount", efi_part, efi_dir));
    v
}

pub open spec fn unmount_spec(plan: InstallPlan, root_dir: Seq<char>, efi_dir: Seq<char>, efi_exists: bool) -> Seq<
    (Seq<char>, Seq<Seq<char>>),
> {
    seq![("sync"@, Seq::<Seq<char>>::empty())] + (if efi_exists {
        seq![("umount"@, seq![efi_dir])]
    } else {
        Seq::empty()
    }) + seq![("umount"@, seq![root_dir])] + (match plan.disk {
        Some(d) => if crate::text::contains(d.path@, "loop"@) {
            seq![("losetup"@, seq!["-d"@, d.path@])]
        } else {
            Seq::empty()
        },
        None => Seq::empty(),
    })
}

/// The final job's commands, all best-effort: flush, unmount the ESP
/// (when its mount point exists) and the root, and detach a loop device
/// the dry-run loop test attached.
pub fn unmount_commands(plan: &InstallPlan, root_dir: &str, efi_dir: &str, efi_exists: bool) -> (v:
    Vec<CommandLine>)
    ensures
        v@.map_values(|c: CommandLine| cmd_view(c)) == unmount_spec(
            *plan,
            root_dir@,
            efi_dir@,
            efi_exists,
        ),
{
    let mut v: Vec<CommandLine> = Vec::new();
    let none: Vec<String> = Vec::new();
    assert(strings_view(none@) =~= Seq::<Seq<char>>::empty());
    v.push(CommandLine { program: "sync", args: none });
    if efi_exists {
        v.push(cmd1("umount", efi_dir));
    }
    v.push(cmd1("umount", root_dir));
    if let Some(d) = &plan.disk {
        let pc = to_chars(d.path.as_str());
        let lp = to_chars("loop");
        if crate::text::contains_exec(&pc, &lp) {
            v.push(cmd2("losetup", "-d", d.path.as_str()));
        }
    }
    assert(v@.map_values(|c: CommandLine| cmd_view(c)) =~= unmount_spec(
        *plan,
        root_dir@,
        efi_dir@,
        efi_exists,
    ));
    v
}

} // verus!
