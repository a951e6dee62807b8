//! What the asset discovery found, what a real install still lacks, and
//! the report the `check-assets` command prints. Assets that are not on
//! disk are reported as missing, never invented.
use vstd::prelude::*;

use crate::backend::config::InstallerConfig;
use crate::backend::paths::{join, join_path};
use crate::env::{opt_view, EnvVars};
use crate::snapshot::FsSnapshot;
use crate::text::{
    eq_ignore_ascii_case, eq_ignore_ascii_case_exec, extend_chars, extend_str, from_chars, owned,
    str_eq, strings_view, to_chars,
};

verus! {

/// Index of the last `c` in `s`, or -1 when there is none.
pub open spec fn rindex_of_char(s: Seq<char>, c: char) -> int
    decreases s.len(),
{
    if s.len() == 0 {
        -1
    } else if s.last() == c {
        s.len() - 1
    } else {
        rindex_of_char(s.drop_last(), c)
    }
}

pub proof fn lemma_rindex_bounds(s: Seq<char>, c: char)
    ensures
        -1 <= rindex_of_char(s, c) < s.len(),
        rindex_of_char(s, c) >= 0 ==> s[rindex_of_char(s, c)] == c,
        forall|j: int| rindex_of_char(s, c) < j < s.len() ==> s[j] != c,
    decreases s.len(),
{
    if s.len() > 0 && s.last() != c {
        lemma_rindex_bounds(s.drop_last(), c);
        assert forall|j: int| rindex_of_char(s, c) < j < s.len() implies s[j] != c by {
            if j < s.len() - 1 {
                assert(s[j] == s.drop_last()[j]);
            }
        }
    }
}

/// `Path::file_name` on Unix: the last component of `p`, ignoring empty
/// and `.` components; none when there is no component or it is `..`.
pub open spec fn file_name(p: Seq<char>) -> Option<Seq<char>>
    decreases p.len(),
{
    if p.len() == 0 {
        None
    } else {
        let k = rindex_of_char(p, '/');
        proof {
            lemma_rindex_bounds(p, '/');
        }
        let seg = p.skip(k + 1);
        if seg.len() == 0 || seg == "."@ {
            if k >= 0 {
                file_name(p.take(k))
            } else {
                None
            }
        } else if seg == ".."@ {
            None
        } else {
            Some(seg)
        }
    }
}

/// `Path::extension` of a file name: the text after its last `.`, none
/// when there is no `.` or the only `.` starts the name.
pub open spec fn name_extension(name: Seq<char>) -> Option<Seq<char>> {
    let i = rindex_of_char(name, '.');
    if name == ".."@ || i <= 0 {
        None
    } else {
        Some(name.skip(i + 1))
    }
}

/// `Path::extension`.
pub open spec fn extension(p: Seq<char>) -> Option<Seq<char>> {
    match file_name(p) {
        Some(n) => name_extension(n),
        None => None,
    }
}

/// Packed-root-image format by extension: `.img` is EROFS, anything else
/// SquashFS.
pub open spec fn image_format_spec(p: Option<Seq<char>>) -> Seq<char> {
    match p {
        Some(path) => if extension(path) == Some("img"@) {
            "erofs"@
        } else {
            "squashfs"@
        },
        None => "squashfs"@,
    }
}

pub fn rindex_exec(s: &[char], end: usize, c: char) -> (r: Option<usize>)
    requires
        end <= s.len(),
    ensures
        r matches Some(k) ==> k < end && k as int == rindex_of_char(s@.take(end as int), c),
        r is None ==> rindex_of_char(s@.take(end as int), c) == -1,
{
    let mut j = end;
    while j > 0
        invariant
            j <= end <= s.len(),
            rindex_of_char(s@.take(end as int), c) == rindex_of_char(s@.take(j as int), c),
        decreases j,
    {
        assert(s@.take(j as int).drop_last() == s@.take(j - 1));
        if s[j - 1] == c {
            return Some(j - 1);
        }
        j -= 1;
    }
    None
}

/// The last component of the path `p`, as `Path::file_name` finds it.
pub fn file_name_exec(p: &str) -> (r: Option<String>)
    ensures
        opt_view(r) == file_name(p@),
{
    let c = to_chars(p);
    let mut end = c.len();
    assert(c@.take(end as int) == p@);
    loop
        invariant
            end <= c.len(),
            c@ == p@,
            file_name(c@.take(end as int)) == file_name(p@),
        decreases end,
    {
        let ghost q = c@.take(end as int);
        if end == 0 {
            return None;
        }
        let k = rindex_exec(&c, end, '/');
        let start: usize = match k {
            Some(k) => k + 1,
            None => 0,
        };
        proof {
            lemma_rindex_bounds(q, '/');
        }
        let ghost seg = q.skip(start as int);
        assert(seg == c@.subrange(start as int, end as int));
        let seg_len = end - start;
        let is_dot = seg_len == 1 && c[start] == '.';
        let is_dotdot = seg_len == 2 && c[start] == '.' && c[start + 1] == '.';
        proof {
            reveal_strlit(".");
            reveal_strlit("..");
            if seg == "."@ {
                assert(seg[0] == '.');
            }
            if seg == ".."@ {
                assert(seg[0] == '.' && seg[1] == '.');
            }
            if is_dot {
                assert(seg =~= "."@);
            }
            if is_dotdot {
                assert(seg =~= ".."@);
            }
        }
        if seg_len == 0 || is_dot {
            match k {
                Some(kk) => {
                    assert(q.take(kk as int) == c@.take(kk as int));
                    end = kk;
                },
                None => {
                    return None;
                },
            }
        } else if is_dotdot {
            return None;
        } else {
            let mut v: Vec<char> = Vec::new();
            let mut i = start;
            while i < end
                invariant
                    start <= i <= end,
                    end <= c.len(),
                    v@ == c@.subrange(start as int, i as int),
                decreases end - i,
            {
                v.push(c[i]);
                i += 1;
                assert(v@ == c@.subrange(start as int, i as int));
            }
            return Some(from_chars(&v));
        }
    }
}

/// `Path::extension`.
pub fn extension_exec(p: &str) -> (r: Option<String>)
    ensures
        opt_view(r) == extension(p@),
{
    match file_name_exec(p) {
        None => None,
        Some(n) => {
            let c = to_chars(n.as_str());
            let is_dotdot = c.len() == 2 && c[0] == '.' && c[1] == '.';
            proof {
                reveal_strlit("..");
                if c@ == ".."@ {
                    assert(c@[0] == '.' && c@[1] == '.');
                }
                if is_dotdot {
                    assert(c@ =~= ".."@);
                }
            }
            assert(c@.take(c.len() as int) == c@);
            let i = rindex_exec(&c, c.len(), '.');
            match i {
                Some(i) => {
                    if is_dotdot || i == 0 {
                        None
                    } else {
                        let mut v: Vec<char> = Vec::new();
                        let mut j = i + 1;
                        proof {
                            lemma_rindex_bounds(c@, '.');
                        }
                        while j < c.len()
                            invariant
                                i + 1 <= j <= c.len(),
                                v@ == c@.subrange(i + 1, j as int),
                            decreases c.len() - j,
                        {
                            v.push(c[j]);
                            j += 1;
                            assert(v@ == c@.subrange(i + 1, j as int));
                        }
                        assert(v@ == c@.skip(i + 1));
                        Some(from_chars(&v))
                    }
                },
                None => None,
            }
        },
    }
}

/// Infers the packed-root-image format from its extension: `.img` is
/// EROFS, anything else (or no image) SquashFS.
pub fn image_format(path: Option<&str>) -> (r: &'static str)
    ensures
        r@ == image_format_spec(match path {
            Some(p) => Some(p@),
            None => None,
        }),
{
    match path {
        None => "squashfs",
        Some(p) => {
            let ext = extension_exec(p);
            match ext {
                Some(e) => {
                    let ec = to_chars(e.as_str());
                    let img = to_chars("img");
                    proof {
                        reveal_strlit("img");
                    }
                    let is_img = ec.len() == 3 && ec[0] == img[0] && ec[1] == img[1] && ec[2]
                        == img[2];
                    if is_img {
                        assert(ec@ =~= "img"@);
                        "erofs"
                    } else {
                        assert(ec@ != "img"@);
                        "squashfs"
                    }
                },
                None => "squashfs",
            }
        },
    }
}

/// The characters of each static string.
pub open spec fn strs_view(v: Seq<&'static str>) -> Seq<Seq<char>> {
    Seq::new(v.len(), |i: int| v[i]@)
}

/// What discovery found. Paths are the ones that existed when they were
/// probed.
#[derive(Debug)]
pub struct AssetReport {
    pub overlayer: Option<String>,
    pub syshub: Option<String>,
    pub zaisys: Option<String>,
    pub kernel: Option<String>,
    pub initrd: Option<String>,
    /// The Limine EFI binary (BOOTX64.EFI) staged for the live/install media.
    pub limine_efi: Option<String>,
    /// Your prepared LIVE menu: overlayer/zaisys/limine/limine.conf
    pub limine_live_conf: Option<String>,
    /// Your prepared INSTALL-time conf: limine.install.conf
    pub limine_install_conf: Option<String>,
    /// Boot menu wallpaper: overlayer/zaisys/limine/wallpaper.bmp
    pub wallpaper: Option<String>,
    pub squash: Option<String>,
    pub quantra: Option<String>,
    pub notes: Vec<String>,
}

impl Default for AssetReport {
    fn default() -> (r: Self)
        ensures
            r.overlayer.is_none(),
            r.syshub.is_none(),
            r.zaisys.is_none(),
            r.kernel.is_none(),
            r.initrd.is_none(),
            r.limine_efi.is_none(),
            r.limine_live_conf.is_none(),
            r.limine_install_conf.is_none(),
            r.wallpaper.is_none(),
            r.squash.is_none(),
            r.quantra.is_none(),
            r.notes@.len() == 0,
    {
        AssetReport {
            overlayer: None,
            syshub: None,
            zaisys: None,
            kernel: None,
            initrd: None,
            limine_efi: None,
            limine_live_conf: None,
            limine_install_conf: None,
            wallpaper: None,
            squash: None,
            quantra: None,
            notes: Vec::new(),
        }
    }
}

pub open spec fn os_source_spec(r: AssetReport, syshub_is_dir: bool) -> bool {
    r.squash is Some || (r.syshub is Some && syshub_is_dir)
}

pub open spec fn missing_spec(r: AssetReport, syshub_is_dir: bool) -> Seq<Seq<char>> {
    (if !os_source_spec(r, syshub_is_dir) {
        seq!["OS source (zairoot.img/zairoot.squash or live overlayer/syshub)"@]
    } else {
        seq![]
    }) + (if r.kernel is None {
        seq![
            "kernel (any file under overlayer/zaisys/kernel/ besides quantra-ramfs.img, or ZAINIUM_KERNEL)"@,
        ]
    } else {
        seq![]
    }) + (if r.initrd is None {
        seq!["initramfs (overlayer/zaisys/kernel/quantra-ramfs.img or ZAINIUM_INITRD)"@]
    } else {
        seq![]
    }) + (if r.limine_efi is None {
        seq!["Limine EFI (overlayer/zaisys/limine/BOOTX64.EFI)"@]
    } else {
        seq![]
    })
}

/// A real install is ready only when all it needs was found: nothing is
/// missing exactly when there is an OS source (a packed root image, or a
/// syshub tree that is a directory), a kernel, an initramfs and the Limine
/// EFI binary; and each one that is absent is named.
pub proof fn lemma_missing_names_each_absent_asset(r: AssetReport, syshub_is_dir: bool)
    ensures
        missing_spec(r, syshub_is_dir).len() == 0 <==> ((r.squash is Some || (r.syshub is Some
            && syshub_is_dir)) && r.kernel is Some && r.initrd is Some && r.limine_efi is Some),
        !(r.squash is Some || (r.syshub is Some && syshub_is_dir)) <==> missing_spec(
            r,
            syshub_is_dir,
        ).contains("OS source (zairoot.img/zairoot.squash or live overlayer/syshub)"@),
        r.kernel is None <==> missing_spec(r, syshub_is_dir).contains(
            "kernel (any file under overlayer/zaisys/kernel/ besides quantra-ramfs.img, or ZAINIUM_KERNEL)"@,
        ),
        r.initrd is None <==> missing_spec(r, syshub_is_dir).contains(
            "initramfs (overlayer/zaisys/kernel/quantra-ramfs.img or ZAINIUM_INITRD)"@,
        ),
        r.limine_efi is None <==> missing_spec(r, syshub_is_dir).contains(
            "Limine EFI (overlayer/zaisys/limine/BOOTX64.EFI)"@,
        ),
{
    let os = "OS source (zairoot.img/zairoot.squash or live overlayer/syshub)"@;
    let k = "kernel (any file under overlayer/zaisys/kernel/ besides quantra-ramfs.img, or ZAINIUM_KERNEL)"@;
    let i = "initramfs (overlayer/zaisys/kernel/quantra-ramfs.img or ZAINIUM_INITRD)"@;
    let e = "Limine EFI (overlayer/zaisys/limine/BOOTX64.EFI)"@;
    reveal_strlit("OS source (zairoot.img/zairoot.squash or live overlayer/syshub)");
    reveal_strlit(
        "kernel (any file under overlayer/zaisys/kernel/ besides quantra-ramfs.img, or ZAINIUM_KERNEL)",
    );
    reveal_strlit("initramfs (overlayer/zaisys/kernel/quantra-ramfs.img or ZAINIUM_INITRD)");
    reveal_strlit("Limine EFI (overlayer/zaisys/limine/BOOTX64.EFI)");
    assert(os[0] != k[0] && os[0] != i[0] && os[0] != e[0] && k[0] != i[0] && k[0] != e[0] && i[0]
        != e[0]);
    let a: Seq<Seq<char>> = if !os_source_spec(r, syshub_is_dir) {
        seq![os]
    } else {
        seq![]
    };
    let b: Seq<Seq<char>> = if r.kernel is None {
        seq![k]
    } else {
        seq![]
    };
    let c: Seq<Seq<char>> = if r.initrd is None {
        seq![i]
    } else {
        seq![]
    };
    let d: Seq<Seq<char>> = if r.limine_efi is None {
        seq![e]
    } else {
        seq![]
    };
    let m = missing_spec(r, syshub_is_dir);
    assert(m == a + b + c + d);
    assert forall|j: int| 0 <= j < m.len() implies (m[j] == os && !os_source_spec(r, syshub_is_dir))
        || (m[j] == k && r.kernel is None) || (m[j] == i && r.initrd is None) || (m[j] == e
        && r.limine_efi is None) by {
        if j < a.len() {
            assert(m[j] == a[j]);
        } else if j < a.len() + b.len() {
            assert(m[j] == b[j - a.len()]);
        } else if j < a.len() + b.len() + c.len() {
            assert(m[j] == c[j - a.len() - b.len()]);
        } else {
            assert(m[j] == d[j - a.len() - b.len() - c.len()]);
        }
    }
    if !os_source_spec(r, syshub_is_dir) {
        assert(m[0] == os);
    }
    if r.kernel is None {
        assert(m[a.len() as int] == k);
    }
    if r.initrd is None {
        assert(m[(a.len() + b.len()) as int] == i);
    }
    if r.limine_efi is None {
        assert(m[(a.len() + b.len() + c.len()) as int] == e);
    }
}

/// One `key = "value"` report line; an absent path is written as `""`.
pub open spec fn report_line(k: Seq<char>, v: Option<String>) -> Seq<char> {
    k + " = \""@ + match v {
        Some(p) => p@,
        None => Seq::<char>::empty(),
    } + "\"\n"@
}

pub open spec fn bool_text(b: bool) -> Seq<char> {
    if b {
        "true"@
    } else {
        "false"@
    }
}

/// `# - note` lines for every note, in order.
pub open spec fn note_lines(notes: Seq<Seq<char>>) -> Seq<char>
    decreases notes.len(),
{
    if notes.len() == 0 {
        Seq::empty()
    } else {
        note_lines(notes.drop_last()) + "# - "@ + notes.last() + "\n"@
    }
}

/// The text of the asset report.
pub open spec fn toml_report_spec(r: AssetReport, syshub_is_dir: bool) -> Seq<char> {
    "# carve asset discovery\n# No assets are invented.\n\n"@ + report_line("overlayer"@, r.overlayer)
        + report_line("syshub"@, r.syshub) + report_line("zaisys"@, r.zaisys) + report_line(
        "kernel"@,
        r.kernel,
    ) + report_line("initrd"@, r.initrd) + report_line("limine_efi"@, r.limine_efi)
        + report_line("limine_live_conf"@, r.limine_live_conf) + report_line(
        "limine_install_conf"@,
        r.limine_install_conf,
    ) + report_line("wallpaper"@, r.wallpaper) + report_line("squash"@, r.squash) + (if r.squash
        is Some {
        "squash_format = \""@ + image_format_spec(opt_view(r.squash)) + "\"\n"@
    } else {
        Seq::<char>::empty()
    }) + report_line("quantra"@, r.quantra) + "has_os_source = "@ + bool_text(
        os_source_spec(r, syshub_is_dir),
    ) + "\n"@ + "has_boot_payload = "@ + bool_text(r.kernel is Some && r.initrd is Some) + "\n"@
        + "has_limine_efi = "@ + bool_text(r.limine_efi is Some) + "\n"@ + (if r.notes@.len()
        > 0 {
        "\n# notes\n"@ + note_lines(strings_view(r.notes@))
    } else {
        Seq::<char>::empty()
    })
}

/// The notes discovery adds for what it did not find, in order.
pub open spec fn discovery_notes_spec(r: AssetReport, syshub_is_dir: bool) -> Seq<Seq<char>> {
    (if r.kernel is None {
        seq!["kernel not found — add under overlayer/zaisys/kernel/ or set ZAINIUM_KERNEL"@]
    } else {
        seq![]
    }) + (if r.initrd is None {
        seq![
            "quantra-ramfs.img not found — build it under overlayer/zaisys/kernel/ or set ZAINIUM_INITRD"@,
        ]
    } else {
        seq![]
    }) + (if r.limine_efi is None {
        seq!["Limine EFI not found — add BOOTX64.EFI under overlayer/zaisys/limine/ when ready"@]
    } else {
        seq![]
    }) + (if r.limine_live_conf is None {
        seq!["live limine.conf not found — prepare overlayer/zaisys/limine/limine.conf yourself"@]
    } else {
        seq![]
    }) + (if r.limine_install_conf is None {
        seq![
            "install conf not found — prepare overlayer/zaisys/limine/limine.install.conf for installer to copy"@,
        ]
    } else {
        seq![]
    }) + (if r.squash is None {
        seq!["zairoot.img/zairoot.squash not found — optional until image factory packs one"@]
    } else {
        seq![]
    }) + (if !os_source_spec(r, syshub_is_dir) {
        seq!["no OS source tree yet — set ZAINIUM_OVERLAYER or ZAINIUM_SQUASH for deploy"@]
    } else {
        seq![]
    })
}

fn push_note_if(v: &mut Vec<String>, cond: bool, note: &str)
    ensures
        strings_view(final(v)@) == strings_view(old(v)@) + if cond {
            seq![note@]
        } else {
            Seq::<Seq<char>>::empty()
        },
{
    if cond {
        v.push(owned(note));
        assert(strings_view(v@) =~= strings_view(old(v)@) + seq![note@]);
    } else {
        assert(strings_view(v@) =~= strings_view(old(v)@) + Seq::<Seq<char>>::empty());
    }
}

fn push_line(v: &mut Vec<char>, k: &str, p: &Option<String>)
    ensures
        final(v)@ == old(v)@ + report_line(k@, *p),
{
    extend_str(v, k);
    extend_str(v, " = \"");
    match p {
        Some(s) => extend_str(v, s.as_str()),
        None => {
            assert(old(v)@ + k@ + " = \""@ == old(v)@ + k@ + " = \""@ + Seq::<char>::empty());
        },
    }
    extend_str(v, "\"\n");
    assert(final(v)@ =~= old(v)@ + report_line(k@, *p));
}

fn push_bool(v: &mut Vec<char>, b: bool)
    ensures
        final(v)@ == old(v)@ + bool_text(b),
{
    if b {
        extend_str(v, "true");
    } else {
        extend_str(v, "false");
    }
}

impl AssetReport {
    /// Whether an OS source exists: a packed root image, or a live syshub
    /// tree that is a directory (`syshub_is_dir`, probed by the caller).
    pub fn has_os_source(&self, syshub_is_dir: bool) -> (r: bool)
        ensures
            r == os_source_spec(*self, syshub_is_dir),
    {
        self.squash.is_some() || (self.syshub.is_some() && syshub_is_dir)
    }

    /// Format of the packed root image at `self.squash`, by extension.
    pub fn squash_format(&self) -> (r: &'static str)
        ensures
            r@ == image_format_spec(opt_view(self.squash)),
    {
        match &self.squash {
            Some(s) => image_format(Some(s.as_str())),
            None => image_format(None),
        }
    }

    pub fn has_boot_payload(&self) -> (r: bool)
        ensures
            r == (self.kernel is Some && self.initrd is Some),
    {
        self.kernel.is_some() && self.initrd.is_some()
    }

    pub fn has_limine_efi(&self) -> (r: bool)
        ensures
            r == self.limine_efi is Some,
    {
        self.limine_efi.is_some()
    }

    /// What a real disk install still lacks. The install conf is not
    /// required: the installer generates one when none was prepared.
    pub fn missing_for_real_install(&self, syshub_is_dir: bool) -> (m: Vec<&'static str>)
        ensures
            strs_view(m@) == missing_spec(*self, syshub_is_dir),
    {
        let mut m: Vec<&'static str> = Vec::new();
        if !self.has_os_source(syshub_is_dir) {
            m.push("OS source (zairoot.img/zairoot.squash or live overlayer/syshub)");
        }
        if self.kernel.is_none() {
            m.push(
                "kernel (any file under overlayer/zaisys/kernel/ besides quantra-ramfs.img, or ZAINIUM_KERNEL)",
            );
        }
        if self.initrd.is_none() {
            m.push("initramfs (overlayer/zaisys/kernel/quantra-ramfs.img or ZAINIUM_INITRD)");
        }
        if self.limine_efi.is_none() {
            m.push("Limine EFI (overlayer/zaisys/limine/BOOTX64.EFI)");
        }
        assert(strs_view(m@) =~= missing_spec(*self, syshub_is_dir));
        m
    }

    /// The notes for every asset discovery did not find.
    pub fn discovery_notes(&self, syshub_is_dir: bool) -> (v: Vec<String>)
        ensures
            strings_view(v@) == discovery_notes_spec(*self, syshub_is_dir),
    {
        let os = self.has_os_source(syshub_is_dir);
        let mut v: Vec<String> = Vec::new();
        push_note_if(
            &mut v,
            self.kernel.is_none(),
            "kernel not found — add under overlayer/zaisys/kernel/ or set ZAINIUM_KERNEL",
        );
        push_note_if(
            &mut v,
            self.initrd.is_none(),
            "quantra-ramfs.img not found — build it under overlayer/zaisys/kernel/ or set ZAINIUM_INITRD",
        );
        push_note_if(
            &mut v,
            self.limine_efi.is_none(),
            "Limine EFI not found — add BOOTX64.EFI under overlayer/zaisys/limine/ when ready",
        );
        push_note_if(
            &mut v,
            self.limine_live_conf.is_none(),
            "live limine.conf not found — prepare overlayer/zaisys/limine/limine.conf yourself",
        );
        push_note_if(
            &mut v,
            self.limine_install_conf.is_none(),
            "install conf not found — prepare overlayer/zaisys/limine/limine.install.conf for installer to copy",
        );
        push_note_if(
            &mut v,
            self.squash.is_none(),
            "zairoot.img/zairoot.squash not found — optional until image factory packs one",
        );
        push_note_if(
            &mut v,
            !os,
            "no OS source tree yet — set ZAINIUM_OVERLAYER or ZAINIUM_SQUASH for deploy",
        );
        assert(strings_view(v@) =~= discovery_notes_spec(*self, syshub_is_dir));
        v
    }

    /// Adds a note for every asset discovery did not find.
    pub fn add_discovery_notes(&mut self, syshub_is_dir: bool)
        ensures
            strings_view(final(self).notes@) == strings_view(old(self).notes@)
                + discovery_notes_spec(*old(self), syshub_is_dir),
            final(self).overlayer == old(self).overlayer,
            final(self).syshub == old(self).syshub,
            final(self).zaisys == old(self).zaisys,
            final(self).kernel == old(self).kernel,
            final(self).initrd == old(self).initrd,
            final(self).limine_efi == old(self).limine_efi,
            final(self).limine_live_conf == old(self).limine_live_conf,
            final(self).limine_install_conf == old(self).limine_install_conf,
            final(self).wallpaper == old(self).wallpaper,
            final(self).squash == old(self).squash,
            final(self).quantra == old(self).quantra,
    {
        let ghost n0 = strings_view(self.notes@);
        let add = self.discovery_notes(syshub_is_dir);
        let mut i: usize = 0;
        while i < add.len()
            invariant
                i <= add@.len(),
                strings_view(self.notes@) == n0 + strings_view(add@).take(i as int),
                self.overlayer == old(self).overlayer,
                self.syshub == old(self).syshub,
                self.zaisys == old(self).zaisys,
                self.kernel == old(self).kernel,
                self.initrd == old(self).initrd,
                self.limine_efi == old(self).limine_efi,
                self.limine_live_conf == old(self).limine_live_conf,
                self.limine_install_conf == old(self).limine_install_conf,
                self.wallpaper == old(self).wallpaper,
                self.squash == old(self).squash,
                self.quantra == old(self).quantra,
            decreases add.len() - i,
        {
            let n = add[i].clone();
            let ghost before = strings_view(self.notes@);
            self.notes.push(n);
            assert(strings_view(self.notes@) =~= before.push(add@[i as int]@));
            i += 1;
            assert(strings_view(self.notes@) =~= n0 + strings_view(add@).take(i as int));
        }
        assert(strings_view(add@).take(i as int) == strings_view(add@));
    }

    /// The `check-assets` report, TOML-shaped.
    pub fn to_toml_report(&self, syshub_is_dir: bool) -> (s: String)
        ensures
            s@ == toml_report_spec(*self, syshub_is_dir),
    {
        let mut v: Vec<char> = Vec::new();
        extend_str(&mut v, "# carve asset discovery\n# No assets are invented.\n\n");
        push_line(&mut v, "overlayer", &self.overlayer);
        push_line(&mut v, "syshub", &self.syshub);
        push_line(&mut v, "zaisys", &self.zaisys);
        push_line(&mut v, "kernel", &self.kernel);
        push_line(&mut v, "initrd", &self.initrd);
        push_line(&mut v, "limine_efi", &self.limine_efi);
        push_line(&mut v, "limine_live_conf", &self.limine_live_conf);
        push_line(&mut v, "limine_install_conf", &self.limine_install_conf);
        push_line(&mut v, "wallpaper", &self.wallpaper);
        push_line(&mut v, "squash", &self.squash);
        let ghost before_fmt = v@;
        if self.squash.is_some() {
            extend_str(&mut v, "squash_format = \"");
            extend_str(&mut v, self.squash_format());
            extend_str(&mut v, "\"\n");
        }
        assert(v@ =~= before_fmt + (if self.squash is Some {
            "squash_format = \""@ + image_format_spec(opt_view(self.squash)) + "\"\n"@
        } else {
            Seq::<char>::empty()
        }));
        push_line(&mut v, "quantra", &self.quantra);
        extend_str(&mut v, "has_os_source = ");
        push_bool(&mut v, self.has_os_source(syshub_is_dir));
        extend_str(&mut v, "\n");
        extend_str(&mut v, "has_boot_payload = ");
        push_bool(&mut v, self.has_boot_payload());
        extend_str(&mut v, "\n");
        extend_str(&mut v, "has_limine_efi = ");
        push_bool(&mut v, self.has_limine_efi());
        extend_str(&mut v, "\n");
        if self.notes.len() > 0 {
            extend_str(&mut v, "\n# notes\n");
            let ghost head = v@;
            let mut i: usize = 0;
            while i < self.notes.len()
                invariant
                    i <= self.notes@.len(),
                    v@ == head + note_lines(strings_view(self.notes@).take(i as int)),
                decreases self.notes.len() - i,
            {
                extend_str(&mut v, "# - ");
                extend_str(&mut v, self.notes[i].as_str());
                extend_str(&mut v, "\n");
                assert(strings_view(self.notes@).take(i + 1).drop_last() == strings_view(
                    self.notes@,
                ).take(i as int));
                i += 1;
                assert(v@ =~= head + note_lines(strings_view(self.notes@).take(i as int)));
            }
            assert(strings_view(self.notes@).take(i as int) == strings_view(self.notes@));
        }
        assert(v@ =~= toml_report_spec(*self, syshub_is_dir));
        from_chars(&v)
    }
}


// ---------------------------------------------------------------------
// Discovery: where each asset is looked for, and in which order.
// ---------------------------------------------------------------------

/// `Path::parent`: the path without its last component; none for a root
/// or an empty path.
pub uninterp spec fn path_parent(p: Seq<char>) -> Option<Seq<char>>;

/// `Path::parent`, its result named by `path_parent`.
#[verifier::external_body]
fn parent_of(p: &str) -> (r: Option<String>)
    ensures
        opt_view(r) == path_parent(p@),
{
    std::path::Path::new(p).parent().map(|q| q.to_string_lossy().into_owned())
}

/// The fields of a report that discovery fills.
pub enum Slot {
    Overlayer,
    Syshub,
    Zaisys,
    Kernel,
    Initrd,
    LimineEfi,
    LiveConf,
    InstallConf,
    Wallpaper,
    Squash,
    Quantra,
}

pub open spec fn slot_of(r: AssetReport, sl: Slot) -> Option<Seq<char>> {
    match sl {
        Slot::Overlayer => opt_view(r.overlayer),
        Slot::Syshub => opt_view(r.syshub),
        Slot::Zaisys => opt_view(r.zaisys),
        Slot::Kernel => opt_view(r.kernel),
        Slot::Initrd => opt_view(r.initrd),
        Slot::LimineEfi => opt_view(r.limine_efi),
        Slot::LiveConf => opt_view(r.limine_live_conf),
        Slot::InstallConf => opt_view(r.limine_install_conf),
        Slot::Wallpaper => opt_view(r.wallpaper),
        Slot::Squash => opt_view(r.squash),
        Slot::Quantra => opt_view(r.quantra),
    }
}

/// `[p]` when `c` holds, else nothing.
pub open spec fn keep(p: Seq<char>, c: bool) -> Seq<Seq<char>> {
    if c {
        seq![p]
    } else {
        Seq::empty()
    }
}

pub open spec fn first_of(s: Seq<Seq<char>>) -> Option<Seq<char>> {
    if s.len() > 0 {
        Some(s[0])
    } else {
        None
    }
}

/// What was already found, else the first of `s`: the first found wins.
pub open spec fn or_first(o: Option<Seq<char>>, s: Seq<Seq<char>>) -> Option<Seq<char>> {
    match o {
        Some(x) => Some(x),
        None => first_of(s),
    }
}

proof fn lemma_or_first_concat(o: Option<Seq<char>>, a: Seq<Seq<char>>, b: Seq<Seq<char>>)
    ensures
        or_first(or_first(o, a), b) == or_first(o, a + b),
{
    if o is None {
        if a.len() > 0 {
            assert((a + b)[0] == a[0]);
        } else {
            assert(a + b =~= b);
        }
    }
}

pub open spec fn image_names() -> Seq<Seq<char>> {
    seq!["zairoot.img"@, "zainium.img"@, "zairoot.squash"@, "zairoot.squashfs"@, "zainium.squash"@]
}

pub open spec fn efi_names() -> Seq<Seq<char>> {
    seq!["BOOTX64.EFI"@, "bootx64.efi"@, "limine.efi"@]
}

pub open spec fn install_conf_names() -> Seq<Seq<char>> {
    seq!["limine.install.conf"@, "limine-installed.conf"@]
}

/// `dir/n` for each name `n` that is a file, in order.
pub open spec fn named_files(s: FsSnapshot, dir: Seq<char>, names: Seq<Seq<char>>) -> Seq<
    Seq<char>,
>
    decreases names.len(),
{
    if names.len() == 0 {
        Seq::empty()
    } else {
        named_files(s, dir, names.drop_last()) + keep(
            join(dir, names.last()),
            s.file(join(dir, names.last())),
        )
    }
}

/// The files listed in the kernel directory `kd`: the initramfs
/// (`initrd`), or everything else.
pub open spec fn kernel_dir_files(
    s: FsSnapshot,
    kd: Seq<char>,
    es: Seq<Seq<char>>,
    initrd: bool,
) -> Seq<Seq<char>>
    decreases es.len(),
{
    if es.len() == 0 {
        Seq::empty()
    } else {
        kernel_dir_files(s, kd, es.drop_last(), initrd) + keep(
            join(kd, es.last()),
            s.file(join(kd, es.last())) && (es.last() == "quantra-ramfs.img"@) == initrd,
        )
    }
}

/// A name ending in `.efi`, in any letter case.
pub open spec fn efi_named(n: Seq<char>) -> bool {
    n.len() >= 4 && eq_ignore_ascii_case(n.subrange(n.len() - 4, n.len() as int), ".efi"@)
}

/// The `.efi` files listed in the limine directory `ld`.
pub open spec fn efi_dir_files(s: FsSnapshot, ld: Seq<char>, es: Seq<Seq<char>>) -> Seq<Seq<char>>
    decreases es.len(),
{
    if es.len() == 0 {
        Seq::empty()
    } else {
        efi_dir_files(s, ld, es.drop_last()) + keep(
            join(ld, es.last()),
            efi_named(es.last()) && s.file(join(ld, es.last())),
        )
    }
}

/// What the zaisys directory `z` offers for a slot, in probe order.
pub open spec fn zaisys_offers(s: FsSnapshot, z: Seq<char>, sl: Slot) -> Seq<Seq<char>> {
    let kd = join(z, "kernel"@);
    let ld = join(z, "limine"@);
    match sl {
        Slot::Kernel => if s.dir(kd) {
            kernel_dir_files(s, kd, s.entries(kd), false)
        } else {
            Seq::empty()
        },
        Slot::Initrd => if s.dir(kd) {
            kernel_dir_files(s, kd, s.entries(kd), true)
        } else {
            Seq::empty()
        },
        Slot::LimineEfi => if s.dir(ld) {
            named_files(s, ld, efi_names()) + efi_dir_files(s, ld, s.entries(ld))
        } else {
            Seq::empty()
        },
        Slot::LiveConf => (if s.dir(ld) {
            named_files(s, ld, seq!["limine.conf"@])
        } else {
            Seq::empty()
        }) + named_files(s, z, seq!["limine.conf"@]),
        Slot::InstallConf => (if s.dir(ld) {
            named_files(s, ld, install_conf_names())
        } else {
            Seq::empty()
        }) + named_files(s, z, install_conf_names()),
        Slot::Wallpaper => if s.dir(ld) {
            named_files(s, ld, seq!["wallpaper.bmp"@])
        } else {
            Seq::empty()
        },
        _ => Seq::empty(),
    }
}

/// What the overlayer candidate `ol` offers for a slot: its syshub and
/// zaisys trees, when they are directories.
pub open spec fn overlayer_offers(s: FsSnapshot, ol: Seq<char>, sl: Slot) -> Seq<Seq<char>> {
    let sh = join(ol, "syshub"@);
    let z = join(ol, "zaisys"@);
    let q = join(sh, "engine/quantra"@);
    match sl {
        Slot::Overlayer => keep(ol, s.dir(sh)),
        Slot::Syshub => keep(sh, s.dir(sh)),
        Slot::Quantra => keep(q, s.dir(sh) && s.file(q)),
        Slot::Zaisys => keep(z, s.dir(z)),
        Slot::Squash => Seq::empty(),
        _ => if s.dir(z) {
            zaisys_offers(s, z, sl)
        } else {
            Seq::empty()
        },
    }
}

/// Packed root images next to the root `r`, each followed by the same
/// name under `zs`, the zaisys directory known at that point.
pub open spec fn image_offers(
    s: FsSnapshot,
    r: Seq<char>,
    names: Seq<Seq<char>>,
    zs: Option<Seq<char>>,
) -> Seq<Seq<char>>
    decreases names.len(),
{
    if names.len() == 0 {
        Seq::empty()
    } else {
        image_offers(s, r, names.drop_last(), zs) + image_pair(s, r, names.last(), zs)
    }
}

pub open spec fn image_pair(s: FsSnapshot, r: Seq<char>, n: Seq<char>, zs: Option<Seq<char>>) -> Seq<
    Seq<char>,
> {
    keep(join(r, n), s.file(join(r, n))) + match zs {
        Some(z) => keep(join(z, n), s.file(join(z, n))),
        None => Seq::empty(),
    }
}

/// What the search root `r` offers for a slot, when it exists: its
/// `overlayer` subdirectory, then `r` itself as an overlayer, then the
/// packed images (`zs` is the zaisys directory known once `r`'s
/// overlayers were probed).
pub open spec fn root_offers(s: FsSnapshot, r: Seq<char>, sl: Slot, zs: Option<Seq<char>>) -> Seq<
    Seq<char>,
> {
    if !s.present_at(r) {
        Seq::empty()
    } else {
        match sl {
            Slot::Squash => image_offers(s, r, image_names(), zs),
            _ => overlayer_offers(s, join(r, "overlayer"@), sl) + overlayer_offers(s, r, sl),
        }
    }
}

pub open spec fn file_override(s: FsSnapshot, o: Option<Seq<char>>) -> Option<Seq<char>> {
    match o {
        Some(p) => if s.file(p) {
            Some(p)
        } else {
            None
        },
        None => None,
    }
}

pub open spec fn dir_override(s: FsSnapshot, o: Option<Seq<char>>) -> Option<Seq<char>> {
    match o {
        Some(p) => if s.dir(p) {
            Some(p)
        } else {
            None
        },
        None => None,
    }
}

/// Each slot before any search root is probed: the explicit settings,
/// when they name something that exists.
pub open spec fn initial_slot(s: FsSnapshot, cfg: InstallerConfig, env: EnvVars, sl: Slot) -> Option<
    Seq<char>,
> {
    match sl {
        Slot::Kernel => file_override(s, env.lookup("ZAINIUM_KERNEL"@)),
        Slot::Initrd => file_override(s, env.lookup("ZAINIUM_INITRD"@)),
        Slot::LiveConf => file_override(s, opt_view(cfg.limine_live_conf)),
        Slot::InstallConf => file_override(s, opt_view(cfg.limine_install_conf)),
        Slot::Overlayer => dir_override(s, opt_view(cfg.overlayer)),
        Slot::Zaisys => dir_override(s, opt_view(cfg.zaisys)),
        Slot::Squash => file_override(s, opt_view(cfg.squash)),
        _ => None,
    }
}

/// The search roots, in order: the configured zairoot, the configured
/// overlayer's parent (the overlayer itself when it has none), then the
/// conventional live locations.
pub open spec fn search_roots(cfg: InstallerConfig) -> Seq<Seq<char>> {
    (match cfg.zairoot {
        Some(z) => seq![z@],
        None => Seq::empty(),
    }) + (match cfg.overlayer {
        Some(o) => seq![
            match path_parent(o@) {
                Some(p) => p,
                None => o@,
            },
        ],
        None => Seq::empty(),
    }) + seq!["/run/live"@, "/live"@, "/mnt/live"@, "/zairoot"@, "."@]
}

/// A slot once the search roots `roots` have been probed in order: the
/// first thing found, the explicit settings first.
pub open spec fn slot_after(
    s: FsSnapshot,
    cfg: InstallerConfig,
    env: EnvVars,
    roots: Seq<Seq<char>>,
    sl: Slot,
) -> Option<Seq<char>>
    decreases roots.len(),
{
    if roots.len() == 0 {
        initial_slot(s, cfg, env, sl)
    } else {
        let prior = roots.drop_last();
        let zs = or_first(
            slot_after(s, cfg, env, prior, Slot::Zaisys),
            root_offers(s, roots.last(), Slot::Zaisys, None),
        );
        or_first(slot_after(s, cfg, env, prior, sl), root_offers(s, roots.last(), sl, zs))
    }
}

fn offer(slot: &mut Option<String>, p: String, cond: bool)
    ensures
        opt_view(*final(slot)) == or_first(opt_view(*old(slot)), keep(p@, cond)),
{
    if cond && slot.is_none() {
        *slot = Some(p);
    }
}

fn offer_named(slot: &mut Option<String>, snap: &FsSnapshot, dir: &str, name: &str)
    ensures
        opt_view(*final(slot)) == or_first(
            opt_view(*old(slot)),
            keep(join(dir@, name@), snap.file(join(dir@, name@))),
        ),
{
    let p = join_path(dir, name);
    let f = snap.is_file(p.as_str());
    offer(slot, p, f);
}

proof fn lemma_named_1(s: FsSnapshot, d: Seq<char>, a: Seq<char>)
    ensures
        named_files(s, d, seq![a]) == keep(join(d, a), s.file(join(d, a))),
{
    assert(seq![a].drop_last() =~= Seq::<Seq<char>>::empty());
    assert(named_files(s, d, Seq::<Seq<char>>::empty()) == Seq::<Seq<char>>::empty());
    assert(Seq::<Seq<char>>::empty() + keep(join(d, a), s.file(join(d, a))) =~= keep(
        join(d, a),
        s.file(join(d, a)),
    ));
}

proof fn lemma_named_2(s: FsSnapshot, d: Seq<char>, a: Seq<char>, b: Seq<char>)
    ensures
        named_files(s, d, seq![a, b]) == keep(join(d, a), s.file(join(d, a))) + keep(
            join(d, b),
            s.file(join(d, b)),
        ),
{
    assert(seq![a, b].drop_last() =~= seq![a]);
    lemma_named_1(s, d, a);
}

proof fn lemma_named_3(s: FsSnapshot, d: Seq<char>, a: Seq<char>, b: Seq<char>, c: Seq<char>)
    ensures
        named_files(s, d, seq![a, b, c]) == keep(join(d, a), s.file(join(d, a))) + keep(
            join(d, b),
            s.file(join(d, b)),
        ) + keep(join(d, c), s.file(join(d, c))),
{
    assert(seq![a, b, c].drop_last() =~= seq![a, b]);
    lemma_named_2(s, d, a, b);
}

/// The files the kernel directory `kd` lists: the initramfs goes to
/// `initrd`, any other file to `kernel`.
fn scan_kernel_dir(
    kernel: &mut Option<String>,
    initrd: &mut Option<String>,
    snap: &FsSnapshot,
    kd: &str,
)
    ensures
        opt_view(*final(kernel)) == or_first(
            opt_view(*old(kernel)),
            kernel_dir_files(*snap, kd@, snap.entries(kd@), false),
        ),
        opt_view(*final(initrd)) == or_first(
            opt_view(*old(initrd)),
            kernel_dir_files(*snap, kd@, snap.entries(kd@), true),
        ),
{
    let es = snap.entries_of(kd);
    let ghost k0 = opt_view(*kernel);
    let ghost i0 = opt_view(*initrd);
    let mut i: usize = 0;
    while i < es.len()
        invariant
            i <= es@.len(),
            strings_view(es@) == snap.entries(kd@),
            opt_view(*kernel) == or_first(
                k0,
                kernel_dir_files(*snap, kd@, strings_view(es@).take(i as int), false),
            ),
            opt_view(*initrd) == or_first(
                i0,
                kernel_dir_files(*snap, kd@, strings_view(es@).take(i as int), true),
            ),
        decreases es.len() - i,
    {
        let p = join_path(kd, es[i].as_str());
        let f = snap.is_file(p.as_str());
        let is_initrd = str_eq(es[i].as_str(), "quantra-ramfs.img");
        let ghost t = strings_view(es@).take(i + 1);
        proof {
            assert(t.drop_last() =~= strings_view(es@).take(i as int));
            assert(t.last() == es@[i as int]@);
            lemma_or_first_concat(
                k0,
                kernel_dir_files(*snap, kd@, strings_view(es@).take(i as int), false),
                keep(p@, f && !is_initrd),
            );
            lemma_or_first_concat(
                i0,
                kernel_dir_files(*snap, kd@, strings_view(es@).take(i as int), true),
                keep(p@, f && is_initrd),
            );
        }
        if is_initrd {
            offer(initrd, p, f);
        } else {
            offer(kernel, p, f);
        }
        i += 1;
    }
    assert(strings_view(es@).take(i as int) =~= strings_view(es@));
}

/// Whether the name ends in `.efi`, in any letter case.
fn efi_named_exec(n: &str) -> (r: bool)
    ensures
        r == efi_named(n@),
{
    let c = to_chars(n);
    let len = c.len();
    if len < 4 {
        return false;
    }
    let mut tail: Vec<char> = Vec::new();
    tail.push(c[len - 4]);
    tail.push(c[len - 3]);
    tail.push(c[len - 2]);
    tail.push(c[len - 1]);
    assert(tail@ =~= n@.subrange(len - 4, len as int));
    let ext = to_chars(".efi");
    eq_ignore_ascii_case_exec(&tail, &ext)
}

/// The `.efi` files the limine directory `ld` lists.
fn scan_efi_listing(efi: &mut Option<String>, snap: &FsSnapshot, ld: &str)
    ensures
        opt_view(*final(efi)) == or_first(
            opt_view(*old(efi)),
            efi_dir_files(*snap, ld@, snap.entries(ld@)),
        ),
{
    let es = snap.entries_of(ld);
    let ghost e0 = opt_view(*efi);
    let mut i: usize = 0;
    while i < es.len()
        invariant
            i <= es@.len(),
            strings_view(es@) == snap.entries(ld@),
            opt_view(*efi) == or_first(e0, efi_dir_files(*snap, ld@, strings_view(es@).take(i as int))),
        decreases es.len() - i,
    {
        let named = efi_named_exec(es[i].as_str());
        let p = join_path(ld, es[i].as_str());
        let f = named && snap.is_file(p.as_str());
        let ghost t = strings_view(es@).take(i + 1);
        proof {
            assert(t.drop_last() =~= strings_view(es@).take(i as int));
            assert(t.last() == es@[i as int]@);
            lemma_or_first_concat(
                e0,
                efi_dir_files(*snap, ld@, strings_view(es@).take(i as int)),
                keep(p@, f),
            );
        }
        offer(efi, p, f);
        i += 1;
    }
    assert(strings_view(es@).take(i as int) =~= strings_view(es@));
}

/// The Limine files in the limine directory `ld` of a zaisys tree.
fn scan_limine_dir(report: &mut AssetReport, snap: &FsSnapshot, ld: &str)
    ensures
        opt_view(final(report).limine_efi) == or_first(
            opt_view(old(report).limine_efi),
            named_files(*snap, ld@, efi_names()) + efi_dir_files(*snap, ld@, snap.entries(ld@)),
        ),
        opt_view(final(report).limine_live_conf) == or_first(
            opt_view(old(report).limine_live_conf),
            named_files(*snap, ld@, seq!["limine.conf"@]),
        ),
        opt_view(final(report).limine_install_conf) == or_first(
            opt_view(old(report).limine_install_conf),
            named_files(*snap, ld@, install_conf_names()),
        ),
        opt_view(final(report).wallpaper) == or_first(
            opt_view(old(report).wallpaper),
            named_files(*snap, ld@, seq!["wallpaper.bmp"@]),
        ),
        final(report).overlayer == old(report).overlayer,
        final(report).syshub == old(report).syshub,
        final(report).zaisys == old(report).zaisys,
        final(report).kernel == old(report).kernel,
        final(report).initrd == old(report).initrd,
        final(report).squash == old(report).squash,
        final(report).quantra == old(report).quantra,
        final(report).notes == old(report).notes,
{
    let ghost s = *snap;
    let ghost d = ld@;
    let ghost e0 = opt_view(report.limine_efi);
    let ghost n0 = opt_view(report.limine_install_conf);
    proof {
        reveal_strlit("BOOTX64.EFI");
        reveal_strlit("bootx64.efi");
        reveal_strlit("limine.efi");
        reveal_strlit("limine.conf");
        reveal_strlit("limine.install.conf");
        reveal_strlit("limine-installed.conf");
        reveal_strlit("wallpaper.bmp");
    }
    offer_named(&mut report.limine_efi, snap, ld, "BOOTX64.EFI");
    offer_named(&mut report.limine_efi, snap, ld, "bootx64.efi");
    offer_named(&mut report.limine_efi, snap, ld, "limine.efi");
    proof {
        lemma_named_3(s, d, "BOOTX64.EFI"@, "bootx64.efi"@, "limine.efi"@);
        lemma_or_first_concat(
            e0,
            keep(join(d, "BOOTX64.EFI"@), s.file(join(d, "BOOTX64.EFI"@))),
            keep(join(d, "bootx64.efi"@), s.file(join(d, "bootx64.efi"@))),
        );
        lemma_or_first_concat(
            e0,
            keep(join(d, "BOOTX64.EFI"@), s.file(join(d, "BOOTX64.EFI"@))) + keep(
                join(d, "bootx64.efi"@),
                s.file(join(d, "bootx64.efi"@)),
            ),
            keep(join(d, "limine.efi"@), s.file(join(d, "limine.efi"@))),
        );
        lemma_or_first_concat(
            e0,
            named_files(s, d, efi_names()),
            efi_dir_files(s, d, s.entries(d)),
        );
    }
    if report.limine_efi.is_none() {
        scan_efi_listing(&mut report.limine_efi, snap, ld);
    }
    offer_named(&mut report.limine_live_conf, snap, ld, "limine.conf");
    proof {
        lemma_named_1(s, d, "limine.conf"@);
    }
    offer_named(&mut report.limine_install_conf, snap, ld, "limine.install.conf");
    offer_named(&mut report.limine_install_conf, snap, ld, "limine-installed.conf");
    proof {
        lemma_named_2(s, d, "limine.install.conf"@, "limine-installed.conf"@);
        lemma_or_first_concat(
            n0,
            keep(join(d, "limine.install.conf"@), s.file(join(d, "limine.install.conf"@))),
            keep(join(d, "limine-installed.conf"@), s.file(join(d, "limine-installed.conf"@))),
        );
    }
    offer_named(&mut report.wallpaper, snap, ld, "wallpaper.bmp");
    proof {
        lemma_named_1(s, d, "wallpaper.bmp"@);
    }
}

/// Scans a zaisys tree: the kernel directory, the limine directory, and
/// conf files staged directly under it.
fn scan_zaisys(report: &mut AssetReport, snap: &FsSnapshot, z: &str)
    ensures
        forall|sl: Slot| #[trigger]
            slot_of(*final(report), sl) == or_first(
                slot_of(*old(report), sl),
                zaisys_offers(*snap, z@, sl),
            ),
        final(report).notes == old(report).notes,
{
    let ghost s = *snap;
    let ghost r0 = *report;
    let kd = join_path(z, "kernel");
    if snap.is_dir(kd.as_str()) {
        scan_kernel_dir(&mut report.kernel, &mut report.initrd, snap, kd.as_str());
    }
    let ld = join_path(z, "limine");
    if snap.is_dir(ld.as_str()) {
        scan_limine_dir(report, snap, ld.as_str());
    }
    let ghost r2 = *report;
    proof {
        reveal_strlit("limine.conf");
        reveal_strlit("limine.install.conf");
        reveal_strlit("limine-installed.conf");
    }
    offer_named(&mut report.limine_live_conf, snap, z, "limine.conf");
    offer_named(&mut report.limine_install_conf, snap, z, "limine.install.conf");
    offer_named(&mut report.limine_install_conf, snap, z, "limine-installed.conf");
    proof {
        lemma_named_1(s, z@, "limine.conf"@);
        lemma_named_2(s, z@, "limine.install.conf"@, "limine-installed.conf"@);
        let ka = keep(join(z@, "limine.install.conf"@), s.file(join(z@, "limine.install.conf"@)));
        let kb = keep(
            join(z@, "limine-installed.conf"@),
            s.file(join(z@, "limine-installed.conf"@)),
        );
        lemma_or_first_concat(opt_view(r2.limine_install_conf), ka, kb);
        let ldv = join(z@, "limine"@);
        let live_a = if s.dir(ldv) {
            named_files(s, ldv, seq!["limine.conf"@])
        } else {
            Seq::empty()
        };
        lemma_or_first_concat(
            opt_view(r0.limine_live_conf),
            live_a,
            named_files(s, z@, seq!["limine.conf"@]),
        );
        let inst_a = if s.dir(ldv) {
            named_files(s, ldv, install_conf_names())
        } else {
            Seq::empty()
        };
        lemma_or_first_concat(
            opt_view(r0.limine_install_conf),
            inst_a,
            named_files(s, z@, install_conf_names()),
        );
        assert forall|sl: Slot| #[trigger]
            slot_of(*report, sl) == or_first(slot_of(r0, sl), zaisys_offers(s, z@, sl)) by {}
    }
}

/// Probes one overlayer candidate `ol`: a syshub directory makes it the
/// overlayer; a zaisys directory is scanned.
fn probe_overlayer(report: &mut AssetReport, snap: &FsSnapshot, ol: &str)
    ensures
        forall|sl: Slot| #[trigger]
            slot_of(*final(report), sl) == or_first(
                slot_of(*old(report), sl),
                overlayer_offers(*snap, ol@, sl),
            ),
        final(report).notes == old(report).notes,
{
    let ghost r0 = *report;
    let sh = join_path(ol, "syshub");
    let z = join_path(ol, "zaisys");
    let sh_dir = snap.is_dir(sh.as_str());
    let q = join_path(sh.as_str(), "engine/quantra");
    let qf = sh_dir && snap.is_file(q.as_str());
    offer(&mut report.overlayer, owned(ol), sh_dir);
    offer(&mut report.syshub, sh, sh_dir);
    offer(&mut report.quantra, q, qf);
    let z_dir = snap.is_dir(z.as_str());
    offer(&mut report.zaisys, z.clone(), z_dir);
    let ghost r1 = *report;
    if z_dir {
        scan_zaisys(report, snap, z.as_str());
    }
    proof {
        assert forall|sl: Slot| #[trigger]
            slot_of(*report, sl) == or_first(slot_of(r0, sl), overlayer_offers(*snap, ol@, sl)) by {
            if z_dir {
                assert(slot_of(*report, sl) == or_first(
                    slot_of(r1, sl),
                    zaisys_offers(*snap, z@, sl),
                ));
            }
        }
    }
}

proof fn lemma_image_offers_step(
    s: FsSnapshot,
    r: Seq<char>,
    names: Seq<Seq<char>>,
    n: Seq<char>,
    zs: Option<Seq<char>>,
)
    ensures
        image_offers(s, r, names.push(n), zs) == image_offers(s, r, names, zs) + image_pair(
            s,
            r,
            n,
            zs,
        ),
{
    assert(names.push(n).drop_last() =~= names);
}

fn offer_image(
    squash: &mut Option<String>,
    zaisys: &Option<String>,
    snap: &FsSnapshot,
    r: &str,
    name: &str,
)
    ensures
        opt_view(*final(squash)) == or_first(
            opt_view(*old(squash)),
            image_pair(*snap, r@, name@, opt_view(*zaisys)),
        ),
{
    let ghost q0 = opt_view(*squash);
    let p = join_path(r, name);
    let f = snap.is_file(p.as_str());
    offer(squash, p, f);
    match zaisys {
        Some(z) => {
            let p2 = join_path(z.as_str(), name);
            let f2 = snap.is_file(p2.as_str());
            offer(squash, p2, f2);
            proof {
                lemma_or_first_concat(
                    q0,
                    keep(join(r@, name@), snap.file(join(r@, name@))),
                    keep(p2@, f2),
                );
            }
        },
        None => {
            assert(image_pair(*snap, r@, name@, None) =~= keep(
                join(r@, name@),
                snap.file(join(r@, name@)),
            ));
        },
    }
}

/// Probes one search root: its overlayer candidates, then the packed
/// root images next to it and under the zaisys directory known so far.
pub fn probe_root(report: &mut AssetReport, snap: &FsSnapshot, root: &str)
    ensures
        forall|sl: Slot| #[trigger]
            slot_of(*final(report), sl) == or_first(
                slot_of(*old(report), sl),
                root_offers(*snap, root@, sl, slot_of(*final(report), Slot::Zaisys)),
            ),
        final(report).notes == old(report).notes,
{
    let ghost r0 = *report;
    if !snap.exists_path(root) {
        return;
    }
    let ol1 = join_path(root, "overlayer");
    probe_overlayer(report, snap, ol1.as_str());
    probe_overlayer(report, snap, root);
    let ghost r2 = *report;
    proof {
        reveal_strlit("zairoot.img");
        reveal_strlit("zainium.img");
        reveal_strlit("zairoot.squash");
        reveal_strlit("zairoot.squashfs");
        reveal_strlit("zainium.squash");
    }
    offer_image(&mut report.squash, &report.zaisys, snap, root, "zairoot.img");
    offer_image(&mut report.squash, &report.zaisys, snap, root, "zainium.img");
    offer_image(&mut report.squash, &report.zaisys, snap, root, "zairoot.squash");
    offer_image(&mut report.squash, &report.zaisys, snap, root, "zairoot.squashfs");
    offer_image(&mut report.squash, &report.zaisys, snap, root, "zainium.squash");
    proof {
        let s = *snap;
        let zs = opt_view(report.zaisys);
        let r = root@;
        let e = Seq::<Seq<char>>::empty();
        let n1 = e.push("zairoot.img"@);
        let n2 = n1.push("zainium.img"@);
        let n3 = n2.push("zairoot.squash"@);
        let n4 = n3.push("zairoot.squashfs"@);
        let n5 = n4.push("zainium.squash"@);
        assert(n5 =~= image_names());
        assert(image_offers(s, r, e, zs) == e);
        lemma_image_offers_step(s, r, e, "zairoot.img"@, zs);
        lemma_image_offers_step(s, r, n1, "zainium.img"@, zs);
        lemma_image_offers_step(s, r, n2, "zairoot.squash"@, zs);
        lemma_image_offers_step(s, r, n3, "zairoot.squashfs"@, zs);
        lemma_image_offers_step(s, r, n4, "zainium.squash"@, zs);
        let q0 = opt_view(r2.squash);
        assert(e + image_pair(s, r, "zairoot.img"@, zs) =~= image_pair(s, r, "zairoot.img"@, zs));
        lemma_or_first_concat(q0, image_offers(s, r, e, zs), image_pair(s, r, "zairoot.img"@, zs));
        lemma_or_first_concat(q0, image_offers(s, r, n1, zs), image_pair(s, r, "zainium.img"@, zs));
        lemma_or_first_concat(
            q0,
            image_offers(s, r, n2, zs),
            image_pair(s, r, "zairoot.squash"@, zs),
        );
        lemma_or_first_concat(
            q0,
            image_offers(s, r, n3, zs),
            image_pair(s, r, "zairoot.squashfs"@, zs),
        );
        lemma_or_first_concat(
            q0,
            image_offers(s, r, n4, zs),
            image_pair(s, r, "zainium.squash"@, zs),
        );
        assert forall|sl: Slot| #[trigger]
            slot_of(*report, sl) == or_first(slot_of(r0, sl), root_offers(s, r, sl, zs)) by {
            lemma_or_first_concat(
                slot_of(r0, sl),
                overlayer_offers(s, ol1@, sl),
                overlayer_offers(s, r, sl),
            );
        }
    }
}

/// The search roots for the configuration.
fn search_roots_exec(cfg: &InstallerConfig) -> (v: Vec<String>)
    ensures
        strings_view(v@) == search_roots(*cfg),
{
    let mut v: Vec<String> = Vec::new();
    if let Some(z) = &cfg.zairoot {
        v.push(z.clone());
    }
    if let Some(o) = &cfg.overlayer {
        match parent_of(o.as_str()) {
            Some(p) => v.push(p),
            None => v.push(o.clone()),
        }
    }
    v.push(owned("/run/live"));
    v.push(owned("/live"));
    v.push(owned("/mnt/live"));
    v.push(owned("/zairoot"));
    v.push(owned("."));
    assert(strings_view(v@) =~= search_roots(*cfg));
    v
}

fn file_override_exec(snap: &FsSnapshot, o: Option<String>) -> (r: Option<String>)
    ensures
        opt_view(r) == file_override(*snap, opt_view(o)),
{
    match o {
        Some(p) => if snap.is_file(p.as_str()) {
            Some(p)
        } else {
            None
        },
        None => None,
    }
}

fn dir_override_exec(snap: &FsSnapshot, o: &Option<String>) -> (r: Option<String>)
    ensures
        opt_view(r) == dir_override(*snap, opt_view(*o)),
{
    match o {
        Some(p) => if snap.is_dir(p.as_str()) {
            Some(p.clone())
        } else {
            None
        },
        None => None,
    }
}

/// Discovers the boot and OS assets in the snapshot: each one is the
/// first found, the explicit settings (`ZAINIUM_KERNEL`,
/// `ZAINIUM_INITRD`, the configured confs, overlayer, zaisys and packed
/// image) before the search roots; a note is added for each one missing.
pub fn discover(cfg: &InstallerConfig, env: &EnvVars, snap: &FsSnapshot) -> (r: AssetReport)
    ensures
        forall|sl: Slot| #[trigger]
            slot_of(r, sl) == slot_after(*snap, *cfg, *env, search_roots(*cfg), sl),
        strings_view(r.notes@) == discovery_notes_spec(
            r,
            r.syshub is Some && snap.dir(r.syshub->0@),
        ),
{
    let mut report = AssetReport::default();
    report.kernel = file_override_exec(snap, env.get("ZAINIUM_KERNEL"));
    report.initrd = file_override_exec(snap, env.get("ZAINIUM_INITRD"));
    report.limine_live_conf = file_override_exec(snap, cfg.limine_live_conf.clone());
    report.limine_install_conf = file_override_exec(snap, cfg.limine_install_conf.clone());
    let roots = search_roots_exec(cfg);
    report.overlayer = dir_override_exec(snap, &cfg.overlayer);
    report.zaisys = dir_override_exec(snap, &cfg.zaisys);
    report.squash = file_override_exec(snap, cfg.squash.clone());
    assert(strings_view(roots@).take(0) =~= Seq::<Seq<char>>::empty());
    assert forall|sl: Slot| #[trigger]
        slot_of(report, sl) == slot_after(*snap, *cfg, *env, strings_view(roots@).take(0), sl) by {}
    let mut i: usize = 0;
    while i < roots.len()
        invariant
            i <= roots@.len(),
            strings_view(roots@) == search_roots(*cfg),
            forall|sl: Slot| #[trigger]
                slot_of(report, sl) == slot_after(
                    *snap,
                    *cfg,
                    *env,
                    strings_view(roots@).take(i as int),
                    sl,
                ),
            report.notes@.len() == 0,
        decreases roots.len() - i,
    {
        let ghost before = report;
        probe_root(&mut report, snap, roots[i].as_str());
        proof {
            let t = strings_view(roots@).take(i + 1);
            assert(t.drop_last() =~= strings_view(roots@).take(i as int));
            assert(t.last() == roots@[i as int]@);
            assert(slot_of(report, Slot::Zaisys) == or_first(
                slot_of(before, Slot::Zaisys),
                root_offers(*snap, roots@[i as int]@, Slot::Zaisys, None),
            ));
            assert forall|sl: Slot| #[trigger]
                slot_of(report, sl) == slot_after(*snap, *cfg, *env, t, sl) by {
                assert(slot_of(report, sl) == or_first(
                    slot_of(before, sl),
                    root_offers(*snap, roots@[i as int]@, sl, slot_of(report, Slot::Zaisys)),
                ));
            }
        }
        i += 1;
    }
    assert(strings_view(roots@).take(i as int) =~= strings_view(roots@));
    let sd = match &report.syshub {
        Some(p) => snap.is_dir(p.as_str()),
        None => false,
    };
    let ghost found = report;
    report.add_discovery_notes(sd);
    assert forall|sl: Slot| #[trigger]
        slot_of(report, sl) == slot_after(*snap, *cfg, *env, search_roots(*cfg), sl) by {
        assert(slot_of(found, sl) == slot_after(
            *snap,
            *cfg,
            *env,
            strings_view(roots@).take(i as int),
            sl,
        ));
    }
    report
}


/// Every candidate in `c` is a file in the snapshot.
pub open spec fn all_files(s: FsSnapshot, c: Seq<Seq<char>>) -> bool {
    forall|i: int| 0 <= i < c.len() ==> s.file(#[trigger] c[i])
}

/// What a found slot is known to be: a directory for the trees, a file
/// for everything else.
pub open spec fn found_as(s: FsSnapshot, sl: Slot, p: Seq<char>) -> bool {
    match sl {
        Slot::Overlayer => s.dir(p) || s.dir(join(p, "syshub"@)),
        Slot::Syshub => s.dir(p),
        Slot::Zaisys => s.dir(p),
        _ => s.file(p),
    }
}

pub open spec fn all_found_as(s: FsSnapshot, sl: Slot, c: Seq<Seq<char>>) -> bool {
    forall|i: int| 0 <= i < c.len() ==> found_as(s, sl, #[trigger] c[i])
}

proof fn lemma_all_files_concat(s: FsSnapshot, a: Seq<Seq<char>>, b: Seq<Seq<char>>)
    requires
        all_files(s, a),
        all_files(s, b),
    ensures
        all_files(s, a + b),
{
    assert forall|i: int| 0 <= i < (a + b).len() implies s.file(#[trigger] (a + b)[i]) by {
        if i < a.len() {
            assert((a + b)[i] == a[i]);
        } else {
            assert((a + b)[i] == b[i - a.len()]);
        }
    }
}

proof fn lemma_named_files_are_files(s: FsSnapshot, d: Seq<char>, ns: Seq<Seq<char>>)
    ensures
        all_files(s, named_files(s, d, ns)),
    decreases ns.len(),
{
    if ns.len() > 0 {
        lemma_named_files_are_files(s, d, ns.drop_last());
        lemma_all_files_concat(
            s,
            named_files(s, d, ns.drop_last()),
            keep(join(d, ns.last()), s.file(join(d, ns.last()))),
        );
    }
}

proof fn lemma_kernel_dir_files_are_files(
    s: FsSnapshot,
    kd: Seq<char>,
    es: Seq<Seq<char>>,
    initrd: bool,
)
    ensures
        all_files(s, kernel_dir_files(s, kd, es, initrd)),
    decreases es.len(),
{
    if es.len() > 0 {
        lemma_kernel_dir_files_are_files(s, kd, es.drop_last(), initrd);
        lemma_all_files_concat(
            s,
            kernel_dir_files(s, kd, es.drop_last(), initrd),
            keep(
                join(kd, es.last()),
                s.file(join(kd, es.last())) && (es.last() == "quantra-ramfs.img"@) == initrd,
            ),
        );
    }
}

proof fn lemma_efi_dir_files_are_files(s: FsSnapshot, ld: Seq<char>, es: Seq<Seq<char>>)
    ensures
        all_files(s, efi_dir_files(s, ld, es)),
    decreases es.len(),
{
    if es.len() > 0 {
        lemma_efi_dir_files_are_files(s, ld, es.drop_last());
        lemma_all_files_concat(
            s,
            efi_dir_files(s, ld, es.drop_last()),
            keep(join(ld, es.last()), efi_named(es.last()) && s.file(join(ld, es.last()))),
        );
    }
}

proof fn lemma_image_offers_are_files(
    s: FsSnapshot,
    r: Seq<char>,
    ns: Seq<Seq<char>>,
    zs: Option<Seq<char>>,
)
    ensures
        all_files(s, image_offers(s, r, ns, zs)),
    decreases ns.len(),
{
    if ns.len() > 0 {
        lemma_image_offers_are_files(s, r, ns.drop_last(), zs);
        let n = ns.last();
        let z_part = match zs {
            Some(z) => keep(join(z, n), s.file(join(z, n))),
            None => Seq::<Seq<char>>::empty(),
        };
        lemma_all_files_concat(s, keep(join(r, n), s.file(join(r, n))), z_part);
        lemma_all_files_concat(s, image_offers(s, r, ns.drop_last(), zs), image_pair(s, r, n, zs));
    }
}

proof fn lemma_zaisys_offers_are_files(s: FsSnapshot, z: Seq<char>, sl: Slot)
    ensures
        all_files(s, zaisys_offers(s, z, sl)),
{
    let kd = join(z, "kernel"@);
    let ld = join(z, "limine"@);
    lemma_kernel_dir_files_are_files(s, kd, s.entries(kd), false);
    lemma_kernel_dir_files_are_files(s, kd, s.entries(kd), true);
    lemma_named_files_are_files(s, ld, efi_names());
    lemma_efi_dir_files_are_files(s, ld, s.entries(ld));
    lemma_all_files_concat(s, named_files(s, ld, efi_names()), efi_dir_files(s, ld, s.entries(ld)));
    lemma_named_files_are_files(s, ld, seq!["limine.conf"@]);
    lemma_named_files_are_files(s, z, seq!["limine.conf"@]);
    lemma_all_files_concat(
        s,
        named_files(s, ld, seq!["limine.conf"@]),
        named_files(s, z, seq!["limine.conf"@]),
    );
    lemma_all_files_concat(s, Seq::empty(), named_files(s, z, seq!["limine.conf"@]));
    lemma_named_files_are_files(s, ld, install_conf_names());
    lemma_named_files_are_files(s, z, install_conf_names());
    lemma_all_files_concat(
        s,
        named_files(s, ld, install_conf_names()),
        named_files(s, z, install_conf_names()),
    );
    lemma_all_files_concat(s, Seq::empty(), named_files(s, z, install_conf_names()));
    lemma_named_files_are_files(s, ld, seq!["wallpaper.bmp"@]);
}

proof fn lemma_overlayer_offers_found(s: FsSnapshot, ol: Seq<char>, sl: Slot)
    ensures
        all_found_as(s, sl, overlayer_offers(s, ol, sl)),
{
    let z = join(ol, "zaisys"@);
    lemma_zaisys_offers_are_files(s, z, sl);
    let c = overlayer_offers(s, ol, sl);
    assert forall|i: int| 0 <= i < c.len() implies found_as(s, sl, #[trigger] c[i]) by {
        match sl {
            Slot::Overlayer => {},
            Slot::Syshub => {},
            Slot::Zaisys => {},
            Slot::Quantra => {},
            Slot::Squash => {},
            _ => {
                assert(s.file(zaisys_offers(s, z, sl)[i]));
            },
        }
    }
}

proof fn lemma_root_offers_found(s: FsSnapshot, r: Seq<char>, sl: Slot, zs: Option<Seq<char>>)
    ensures
        all_found_as(s, sl, root_offers(s, r, sl, zs)),
{
    let a = overlayer_offers(s, join(r, "overlayer"@), sl);
    let b = overlayer_offers(s, r, sl);
    lemma_overlayer_offers_found(s, join(r, "overlayer"@), sl);
    lemma_overlayer_offers_found(s, r, sl);
    lemma_image_offers_are_files(s, r, image_names(), zs);
    let c = root_offers(s, r, sl, zs);
    assert forall|i: int| 0 <= i < c.len() implies found_as(s, sl, #[trigger] c[i]) by {
        if s.present_at(r) {
            match sl {
                Slot::Squash => {
                    assert(s.file(image_offers(s, r, image_names(), zs)[i]));
                },
                _ => {
                    if i < a.len() {
                        assert((a + b)[i] == a[i]);
                    } else {
                        assert((a + b)[i] == b[i - a.len()]);
                    }
                },
            }
        }
    }
}

/// Discovery invents nothing: every asset it reports exists in the
/// snapshot — a file, or for the syshub and zaisys trees a directory, and
/// for the overlayer a directory or one whose `syshub` is a directory.
pub proof fn lemma_discovery_reports_only_what_exists(
    s: FsSnapshot,
    cfg: InstallerConfig,
    env: EnvVars,
    roots: Seq<Seq<char>>,
    sl: Slot,
)
    ensures
        slot_after(s, cfg, env, roots, sl) matches Some(p) ==> found_as(s, sl, p),
    decreases roots.len(),
{
    if roots.len() > 0 {
        let prior = roots.drop_last();
        lemma_discovery_reports_only_what_exists(s, cfg, env, prior, sl);
        let zs = or_first(
            slot_after(s, cfg, env, prior, Slot::Zaisys),
            root_offers(s, roots.last(), Slot::Zaisys, None),
        );
        lemma_root_offers_found(s, roots.last(), sl, zs);
        if slot_after(s, cfg, env, prior, sl) is None {
            let c = root_offers(s, roots.last(), sl, zs);
            if c.len() > 0 {
                assert(found_as(s, sl, c[0]));
            }
        }
    }
}

/// Every candidate in `c` is a file of the snapshot named
/// `quantra-ramfs.img` inside some directory.
spec fn all_ramfs(s: FsSnapshot, c: Seq<Seq<char>>) -> bool {
    forall|i: int|
        0 <= i < c.len() ==> s.file(#[trigger] c[i]) && exists|d: Seq<char>|
            c[i] == #[trigger] join(d, "quantra-ramfs.img"@)
}

proof fn lemma_all_ramfs_concat(s: FsSnapshot, a: Seq<Seq<char>>, b: Seq<Seq<char>>)
    requires
        all_ramfs(s, a),
        all_ramfs(s, b),
    ensures
        all_ramfs(s, a + b),
{
    assert forall|i: int| 0 <= i < (a + b).len() implies s.file(#[trigger] (a + b)[i]) && exists|
        d: Seq<char>,
    | (a + b)[i] == #[trigger] join(d, "quantra-ramfs.img"@) by {
        if i < a.len() {
            assert((a + b)[i] == a[i]);
        } else {
            assert((a + b)[i] == b[i - a.len()]);
        }
    }
}

proof fn lemma_kernel_dir_ramfs(s: FsSnapshot, kd: Seq<char>, es: Seq<Seq<char>>)
    ensures
        all_ramfs(s, kernel_dir_files(s, kd, es, true)),
    decreases es.len(),
{
    if es.len() > 0 {
        lemma_kernel_dir_ramfs(s, kd, es.drop_last());
        let p = join(kd, es.last());
        let k = keep(p, s.file(p) && (es.last() == "quantra-ramfs.img"@) == true);
        assert forall|i: int| 0 <= i < k.len() implies s.file(#[trigger] k[i]) && exists|
            d: Seq<char>,
        | k[i] == #[trigger] join(d, "quantra-ramfs.img"@) by {
            assert(k[i] == join(kd, "quantra-ramfs.img"@));
        }
        lemma_all_ramfs_concat(s, kernel_dir_files(s, kd, es.drop_last(), true), k);
    }
}

proof fn lemma_root_offers_ramfs(s: FsSnapshot, r: Seq<char>, zs: Option<Seq<char>>)
    ensures
        all_ramfs(s, root_offers(s, r, Slot::Initrd, zs)),
{
    let o1 = join(r, "overlayer"@);
    let z1 = join(o1, "zaisys"@);
    let z2 = join(r, "zaisys"@);
    lemma_kernel_dir_ramfs(s, join(z1, "kernel"@), s.entries(join(z1, "kernel"@)));
    lemma_kernel_dir_ramfs(s, join(z2, "kernel"@), s.entries(join(z2, "kernel"@)));
    assert(all_ramfs(s, Seq::empty()));
    lemma_all_ramfs_concat(
        s,
        overlayer_offers(s, o1, Slot::Initrd),
        overlayer_offers(s, r, Slot::Initrd),
    );
}

/// The initramfs discovery reports: the `ZAINIUM_INITRD` file when that
/// exists; otherwise, if any, a file named `quantra-ramfs.img` found under
/// a probed directory, never another setting such as `ZAINIUM_KERNEL`.
/// Likewise the kernel is the `ZAINIUM_KERNEL` file when that exists.
pub proof fn lemma_discovered_boot_payload(
    s: FsSnapshot,
    cfg: InstallerConfig,
    env: EnvVars,
    roots: Seq<Seq<char>>,
)
    ensures
        (env.lookup("ZAINIUM_INITRD"@) is Some && s.file(env.lookup("ZAINIUM_INITRD"@)->0))
            ==> slot_after(s, cfg, env, roots, Slot::Initrd) == env.lookup("ZAINIUM_INITRD"@),
        !(env.lookup("ZAINIUM_INITRD"@) is Some && s.file(env.lookup("ZAINIUM_INITRD"@)->0))
            ==> (slot_after(s, cfg, env, roots, Slot::Initrd) matches Some(p) ==> s.file(p) && exists|
            d: Seq<char>,
        | p == #[trigger] join(d, "quantra-ramfs.img"@)),
        (env.lookup("ZAINIUM_KERNEL"@) is Some && s.file(env.lookup("ZAINIUM_KERNEL"@)->0))
            ==> slot_after(s, cfg, env, roots, Slot::Kernel) == env.lookup("ZAINIUM_KERNEL"@),
    decreases roots.len(),
{
    if roots.len() > 0 {
        let prior = roots.drop_last();
        lemma_discovered_boot_payload(s, cfg, env, prior);
        let zs = or_first(
            slot_after(s, cfg, env, prior, Slot::Zaisys),
            root_offers(s, roots.last(), Slot::Zaisys, None),
        );
        lemma_root_offers_ramfs(s, roots.last(), zs);
        let c = root_offers(s, roots.last(), Slot::Initrd, zs);
        if slot_after(s, cfg, env, prior, Slot::Initrd) is None && c.len() > 0 {
            assert(s.file(c[0]));
        }
    }
}

// ---------------------------------------------------------------------
// What the caller must probe for `discover`.
// ---------------------------------------------------------------------

/// `d/n` for each name `n`.
pub open spec fn under(d: Seq<char>, names: Seq<Seq<char>>) -> Seq<Seq<char>> {
    names.map_values(|n: Seq<char>| join(d, n))
}

/// The paths probed for one overlayer candidate `ol`.
pub open spec fn overlayer_probes(ol: Seq<char>) -> Seq<Seq<char>> {
    let sh = join(ol, "syshub"@);
    let z = join(ol, "zaisys"@);
    let ld = join(z, "limine"@);
    seq![sh, join(sh, "engine/quantra"@), z, join(z, "kernel"@), ld] + under(
        ld,
        efi_names() + seq!["limine.conf"@] + install_conf_names() + seq!["wallpaper.bmp"@],
    ) + under(z, seq!["limine.conf"@] + install_conf_names() + image_names())
}

/// The paths probed for one search root `r`.
pub open spec fn root_probes(r: Seq<char>) -> Seq<Seq<char>> {
    seq![r] + overlayer_probes(join(r, "overlayer"@)) + overlayer_probes(r) + under(r, image_names())
}

/// The directories listed for one search root `r`: the kernel and limine
/// directories of both its overlayer candidates.
pub open spec fn root_listings(r: Seq<char>) -> Seq<Seq<char>> {
    let z1 = join(join(r, "overlayer"@), "zaisys"@);
    let z2 = join(r, "zaisys"@);
    seq![join(z1, "kernel"@), join(z1, "limine"@), join(z2, "kernel"@), join(z2, "limine"@)]
}

pub open spec fn opt_seq(o: Option<Seq<char>>) -> Seq<Seq<char>> {
    match o {
        Some(p) => seq![p],
        None => Seq::empty(),
    }
}

pub open spec fn roots_probes(roots: Seq<Seq<char>>) -> Seq<Seq<char>>
    decreases roots.len(),
{
    if roots.len() == 0 {
        Seq::empty()
    } else {
        roots_probes(roots.drop_last()) + root_probes(roots.last())
    }
}

pub open spec fn roots_listings(roots: Seq<Seq<char>>) -> Seq<Seq<char>>
    decreases roots.len(),
{
    if roots.len() == 0 {
        Seq::empty()
    } else {
        roots_listings(roots.drop_last()) + root_listings(roots.last())
    }
}

/// Every path whose kind `discover` consults, besides directory entries.
pub open spec fn discovery_paths(cfg: InstallerConfig, env: EnvVars) -> Seq<Seq<char>> {
    opt_seq(env.lookup("ZAINIUM_KERNEL"@)) + opt_seq(env.lookup("ZAINIUM_INITRD"@)) + opt_seq(
        opt_view(cfg.limine_live_conf),
    ) + opt_seq(opt_view(cfg.limine_install_conf)) + opt_seq(opt_view(cfg.overlayer)) + opt_seq(
        opt_view(cfg.zaisys),
    ) + opt_seq(opt_view(cfg.squash)) + (match cfg.zaisys {
        Some(z) => under(z@, image_names()),
        None => Seq::empty(),
    }) + roots_probes(search_roots(cfg))
}

/// What to probe before `discover`: the kind of every path in `paths`,
/// and the entries (each with its kind) of every directory in `listed`.
pub struct DiscoveryProbes {
    pub paths: Vec<String>,
    pub listed: Vec<String>,
}

fn push_opt(v: &mut Vec<String>, o: Option<String>)
    ensures
        strings_view(final(v)@) == strings_view(old(v)@) + opt_seq(opt_view(o)),
{
    let ghost before = strings_view(v@);
    match o {
        Some(p) => {
            v.push(p);
        },
        None => {},
    }
    assert(strings_view(v@) =~= before + opt_seq(opt_view(o)));
}

fn push_path(v: &mut Vec<String>, p: String)
    ensures
        strings_view(final(v)@) == strings_view(old(v)@).push(p@),
{
    let ghost before = strings_view(v@);
    v.push(p);
    assert(strings_view(v@) =~= before.push(p@));
}

fn push_joined(v: &mut Vec<String>, d: &str, n: &str)
    ensures
        strings_view(final(v)@) == strings_view(old(v)@).push(join(d@, n@)),
{
    let ghost before = strings_view(v@);
    v.push(join_path(d, n));
    assert(strings_view(v@) =~= before.push(join(d@, n@)));
}

fn push_images(v: &mut Vec<String>, d: &str)
    ensures
        strings_view(final(v)@) == strings_view(old(v)@) + under(d@, image_names()),
{
    let ghost before = strings_view(v@);
    push_joined(v, d, "zairoot.img");
    push_joined(v, d, "zainium.img");
    push_joined(v, d, "zairoot.squash");
    push_joined(v, d, "zairoot.squashfs");
    push_joined(v, d, "zainium.squash");
    assert(strings_view(v@) =~= before + under(d@, image_names()));
}

fn push_overlayer_probes(v: &mut Vec<String>, ol: &str)
    ensures
        strings_view(final(v)@) == strings_view(old(v)@) + overlayer_probes(ol@),
{
    let ghost before = strings_view(v@);
    let sh = join_path(ol, "syshub");
    let z = join_path(ol, "zaisys");
    let ld = join_path(z.as_str(), "limine");
    push_path(v, sh.clone());
    push_joined(v, sh.as_str(), "engine/quantra");
    push_path(v, z.clone());
    push_joined(v, z.as_str(), "kernel");
    push_path(v, ld.clone());
    let ghost mid = strings_view(v@);
    push_joined(v, ld.as_str(), "BOOTX64.EFI");
    push_joined(v, ld.as_str(), "bootx64.efi");
    push_joined(v, ld.as_str(), "limine.efi");
    push_joined(v, ld.as_str(), "limine.conf");
    push_joined(v, ld.as_str(), "limine.install.conf");
    push_joined(v, ld.as_str(), "limine-installed.conf");
    push_joined(v, ld.as_str(), "wallpaper.bmp");
    let ghost mid2 = strings_view(v@);
    push_joined(v, z.as_str(), "limine.conf");
    push_joined(v, z.as_str(), "limine.install.conf");
    push_joined(v, z.as_str(), "limine-installed.conf");
    push_images(v, z.as_str());
    proof {
        let tail1 = efi_names() + seq!["limine.conf"@] + install_conf_names() + seq![
            "wallpaper.bmp"@,
        ];
        let tail2 = seq!["limine.conf"@] + install_conf_names() + image_names();
        assert(mid =~= before + seq![
            sh@,
            join(sh@, "engine/quantra"@),
            z@,
            join(z@, "kernel"@),
            ld@,
        ]);
        assert(mid2 =~= mid + under(ld@, tail1));
        assert(strings_view(v@) =~= mid2 + under(z@, tail2));
        assert(strings_view(v@) =~= before + overlayer_probes(ol@));
    }
}

fn push_root_probes(paths: &mut Vec<String>, listed: &mut Vec<String>, r: &str)
    ensures
        strings_view(final(paths)@) == strings_view(old(paths)@) + root_probes(r@),
        strings_view(final(listed)@) == strings_view(old(listed)@) + root_listings(r@),
{
    let ghost p0 = strings_view(paths@);
    let ghost l0 = strings_view(listed@);
    push_path(paths, owned(r));
    let ol = join_path(r, "overlayer");
    push_overlayer_probes(paths, ol.as_str());
    push_overlayer_probes(paths, r);
    push_images(paths, r);
    let z1 = join_path(ol.as_str(), "zaisys");
    let z2 = join_path(r, "zaisys");
    push_joined(listed, z1.as_str(), "kernel");
    push_joined(listed, z1.as_str(), "limine");
    push_joined(listed, z2.as_str(), "kernel");
    push_joined(listed, z2.as_str(), "limine");
    assert(strings_view(paths@) =~= p0 + root_probes(r@));
    assert(strings_view(listed@) =~= l0 + root_listings(r@));
}

/// What `discover` will consult: probe the kind of each path in
/// `paths`, list each directory in `listed`, and record the snapshot.
pub fn discovery_probes(cfg: &InstallerConfig, env: &EnvVars) -> (p: DiscoveryProbes)
    ensures
        strings_view(p.paths@) == discovery_paths(*cfg, *env),
        strings_view(p.listed@) == roots_listings(search_roots(*cfg)),
{
    let mut paths: Vec<String> = Vec::new();
    push_opt(&mut paths, env.get("ZAINIUM_KERNEL"));
    push_opt(&mut paths, env.get("ZAINIUM_INITRD"));
    push_opt(&mut paths, cfg.limine_live_conf.clone());
    push_opt(&mut paths, cfg.limine_install_conf.clone());
    push_opt(&mut paths, cfg.overlayer.clone());
    push_opt(&mut paths, cfg.zaisys.clone());
    push_opt(&mut paths, cfg.squash.clone());
    let ghost before_z = strings_view(paths@);
    if let Some(z) = &cfg.zaisys {
        push_images(&mut paths, z.as_str());
    }
    assert(strings_view(paths@) =~= before_z + match cfg.zaisys {
        Some(z) => under(z@, image_names()),
        None => Seq::empty(),
    });
    let ghost head = strings_view(paths@);
    let roots = search_roots_exec(cfg);
    let mut listed: Vec<String> = Vec::new();
    let mut i: usize = 0;
    while i < roots.len()
        invariant
            i <= roots@.len(),
            strings_view(paths@) == head + roots_probes(strings_view(roots@).take(i as int)),
            strings_view(listed@) == roots_listings(strings_view(roots@).take(i as int)),
        decreases roots.len() - i,
    {
        push_root_probes(&mut paths, &mut listed, roots[i].as_str());
        proof {
            let t = strings_view(roots@).take(i + 1);
            assert(t.drop_last() =~= strings_view(roots@).take(i as int));
            assert(t.last() == roots@[i as int]@);
        }
        i += 1;
    }
    assert(strings_view(roots@).take(i as int) =~= strings_view(roots@));
    DiscoveryProbes { paths, listed }
}

} // verus!
