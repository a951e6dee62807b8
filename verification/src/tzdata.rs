//! Timezones, discovered: every zone offered comes from the live IANA
//! tzdata tree (`/usr/share/zoneinfo`, or `ZAINIUM_ZONEINFO`). The caller
//! walks the tree; these functions decide which names are zones, which
//! top-level directories are regions, and in what order they are listed.
use vstd::prelude::*;

use crate::backend::paths::{join, join_path};
use crate::env::EnvVars;
use crate::model::install_plan::or_default;
use crate::snapshot::FsSnapshot;
use crate::text::{
    contains, contains_exec, extend_str, from_chars, owned, sort_strings, sorted, starts_with,
    starts_with_exec, str_eq, strings_view, to_chars,
};

verus! {

/// Root of the zoneinfo tree the environment selects.
pub open spec fn zoneinfo_root_spec(env: EnvVars) -> Seq<char> {
    or_default(env.lookup("ZAINIUM_ZONEINFO"@), "/usr/share/zoneinfo"@)
}

pub fn zoneinfo_root(env: &EnvVars) -> (r: String)
    ensures
        r@ == zoneinfo_root_spec(*env),
{
    match env.get("ZAINIUM_ZONEINFO") {
        Some(p) => p,
        None => owned("/usr/share/zoneinfo"),
    }
}

/// Whether this medium has usable tzdata: the zoneinfo root is a
/// directory in the snapshot.
pub fn available(env: &EnvVars, snap: &FsSnapshot) -> (r: bool)
    ensures
        r == snap.dir(zoneinfo_root_spec(*env)),
{
    let root = zoneinfo_root(env);
    snap.is_dir(root.as_str())
}

/// Top-level directories that are not regions: `posix`/`right` duplicate
/// the data, `Factory` is a placeholder zone, `SystemV` holds legacy names.
pub open spec fn skip_top() -> Seq<Seq<char>> {
    seq!["posix"@, "right"@, "Factory"@, "SystemV"@]
}

/// Whether a top-level directory is left out of the region list.
pub fn is_skipped_top(name: &str) -> (r: bool)
    ensures
        r == skip_top().contains(name@),
{
    let r = str_eq(name, "posix") || str_eq(name, "right") || str_eq(name, "Factory") || str_eq(
        name,
        "SystemV",
    );
    proof {
        if skip_top().contains(name@) {
            let i = choose|i: int| 0 <= i < skip_top().len() && skip_top()[i] == name@;
            assert(i == 0 || i == 1 || i == 2 || i == 3);
        }
        if r {
            if name@ == "posix"@ {
                assert(skip_top()[0] == name@);
            } else if name@ == "right"@ {
                assert(skip_top()[1] == name@);
            } else if name@ == "Factory"@ {
                assert(skip_top()[2] == name@);
            } else {
                assert(skip_top()[3] == name@);
            }
        }
    }
    r
}

/// A top-level directory that is a real region.
pub open spec fn is_region(name: Seq<char>) -> bool {
    !skip_top().contains(name) && name != "Etc"@
}

/// The regions among top-level directory names, in their order.
pub open spec fn region_names(dirs: Seq<Seq<char>>) -> Seq<Seq<char>>
    decreases dirs.len(),
{
    if dirs.len() == 0 {
        Seq::empty()
    } else {
        region_names(dirs.drop_last()) + if is_region(dirs.last()) {
            seq![dirs.last()]
        } else {
            Seq::<Seq<char>>::empty()
        }
    }
}

/// The regions among the top-level directories `dirs` (Africa, America,
/// Asia, ...), sorted.
pub fn regions(dirs: &Vec<String>) -> (r: Vec<String>)
    ensures
        strings_view(r@).to_multiset() == region_names(strings_view(dirs@)).to_multiset(),
        sorted(strings_view(r@)),
{
    let mut keep: Vec<String> = Vec::new();
    let mut i: usize = 0;
    assert(strings_view(dirs@).take(0) =~= Seq::<Seq<char>>::empty());
    assert(strings_view(keep@) =~= Seq::<Seq<char>>::empty());
    while i < dirs.len()
        invariant
            i <= dirs@.len(),
            strings_view(keep@) == region_names(strings_view(dirs@).take(i as int)),
        decreases dirs.len() - i,
    {
        let name = dirs[i].as_str();
        let ghost pre = strings_view(dirs@).take(i as int);
        assert(strings_view(dirs@).take(i + 1).drop_last() == pre);
        assert(strings_view(dirs@).take(i + 1).last() == dirs@[i as int]@);
        let ghost old_keep = strings_view(keep@);
        if !is_skipped_top(name) && !str_eq(name, "Etc") {
            keep.push(dirs[i].clone());
            assert(strings_view(keep@) =~= old_keep.push(dirs@[i as int]@));
        } else {
            assert(strings_view(keep@) =~= old_keep);
        }
        i += 1;
        assert(strings_view(keep@) =~= region_names(strings_view(dirs@).take(i as int)));
    }
    assert(strings_view(dirs@).take(dirs@.len() as int) == strings_view(dirs@));
    sort_strings(&keep)
}

/// The standalone zones (files at the top of the tree, like UTC), sorted.
pub fn standalone_zones(files: &Vec<String>) -> (r: Vec<String>)
    ensures
        strings_view(r@).to_multiset() == strings_view(files@).to_multiset(),
        sorted(strings_view(r@)),
{
    sort_strings(files)
}

/// The directory of `region` in the zoneinfo tree.
pub open spec fn region_dir(env: EnvVars, region: Seq<char>) -> Seq<char> {
    join(zoneinfo_root_spec(env), region)
}

/// The zone names inside one region, relative to it (such as "Karachi",
/// or "Argentina/Buenos_Aires" for regions with sub-directories): the
/// files the snapshot records below the region's directory, sorted, each
/// name once when the snapshot records each file once. A region with no
/// files (or none at all) gives no name.
pub fn zones_in_region(env: &EnvVars, snap: &FsSnapshot, region: &str) -> (r: Vec<String>)
    ensures
        strings_view(r@).to_multiset() == relative_files(
            strings_view(snap.files@),
            join(region_dir(*env, region@), Seq::empty()),
        ).to_multiset(),
        sorted(strings_view(r@)),
        snap.files_recorded_once() ==> strings_view(r@).no_duplicates(),
{
    let root = zoneinfo_root(env);
    let dir = join_path(root.as_str(), region);
    zone_names_under(snap, dir.as_str())
}

/// The paths below `prefix` among `files`, relative to it, in order.
pub open spec fn relative_files(files: Seq<Seq<char>>, prefix: Seq<char>) -> Seq<Seq<char>>
    decreases files.len(),
{
    if files.len() == 0 {
        Seq::empty()
    } else {
        relative_files(files.drop_last(), prefix) + if starts_with(files.last(), prefix)
            && files.last().len() > prefix.len() {
            seq![files.last().skip(prefix.len() as int)]
        } else {
            Seq::<Seq<char>>::empty()
        }
    }
}

/// Where an entry of `relative_files` comes from: a file below `prefix`.
proof fn lemma_relative_files_source(files: Seq<Seq<char>>, prefix: Seq<char>, k: int) -> (j: int)
    requires
        0 <= k < relative_files(files, prefix).len(),
    ensures
        0 <= j < files.len(),
        starts_with(files[j], prefix),
        files[j].len() > prefix.len(),
        files[j].skip(prefix.len() as int) == relative_files(files, prefix)[k],
    decreases files.len(),
{
    let rest = relative_files(files.drop_last(), prefix);
    if k < rest.len() {
        lemma_relative_files_source(files.drop_last(), prefix, k)
    } else {
        files.len() - 1
    }
}

/// Distinct files give distinct relative names.
pub proof fn lemma_relative_files_distinct(files: Seq<Seq<char>>, prefix: Seq<char>)
    requires
        files.no_duplicates(),
    ensures
        relative_files(files, prefix).no_duplicates(),
    decreases files.len(),
{
    if files.len() > 0 {
        let init = files.drop_last();
        assert forall|a: int, b: int| 0 <= a < init.len() && 0 <= b < init.len() && a != b implies init[a]
            != init[b] by {
            assert(init[a] == files[a] && init[b] == files[b]);
        }
        lemma_relative_files_distinct(init, prefix);
        let rest = relative_files(init, prefix);
        let last = files.last();
        let n = prefix.len() as int;
        if starts_with(last, prefix) && last.len() > prefix.len() {
            let x = last.skip(n);
            assert forall|i: int, z: int| 0 <= i < rest.len() && 0 <= z < seq![x].len() implies rest[i]
                != seq![x][z] by {
                let j = lemma_relative_files_source(init, prefix, i);
                if rest[i] == x {
                    assert(init[j] =~= init[j].subrange(0, n) + init[j].skip(n));
                    assert(last =~= last.subrange(0, n) + last.skip(n));
                    assert(init[j] == files[j]);
                    assert(files[j] == files[files.len() - 1]);
                }
            }
            vstd::seq_lib::lemma_no_dup_in_concat(rest, seq![x]);
        } else {
            assert(relative_files(files, prefix) =~= rest);
        }
    }
}

fn suffix_string(c: &Vec<char>, k: usize) -> (r: String)
    requires
        k <= c@.len(),
    ensures
        r@ == c@.skip(k as int),
{
    let mut v: Vec<char> = Vec::new();
    let mut i = k;
    while i < c.len()
        invariant
            k <= i <= c@.len(),
            v@ == c@.subrange(k as int, i as int),
        decreases c.len() - i,
    {
        v.push(c[i]);
        i += 1;
        assert(v@ =~= c@.subrange(k as int, i as int));
    }
    assert(c@.subrange(k as int, i as int) =~= c@.skip(k as int));
    from_chars(&v)
}

/// The zone names in the tree under `dir` (a region's directory): every
/// file the snapshot records below it, named relative to it (such as
/// "Karachi" or "Argentina/Buenos_Aires"), sorted; each name once when
/// the snapshot records each file once. A directory that holds no file
/// (or is missing) gives no name.
pub fn zone_names_under(snap: &FsSnapshot, dir: &str) -> (r: Vec<String>)
    ensures
        strings_view(r@).to_multiset() == relative_files(
            strings_view(snap.files@),
            join(dir@, Seq::empty()),
        ).to_multiset(),
        sorted(strings_view(r@)),
        snap.files_recorded_once() ==> strings_view(r@).no_duplicates(),
{
    let prefix_s = join_path(dir, "");
    proof {
        reveal_strlit("");
    }
    let prefix = to_chars(prefix_s.as_str());
    let mut found: Vec<String> = Vec::new();
    let mut i: usize = 0;
    assert(strings_view(snap.files@).take(0) =~= Seq::<Seq<char>>::empty());
    while i < snap.files.len()
        invariant
            i <= snap.files@.len(),
            prefix@ == join(dir@, Seq::empty()),
            strings_view(found@) == relative_files(
                strings_view(snap.files@).take(i as int),
                prefix@,
            ),
        decreases snap.files.len() - i,
    {
        let ghost pre = strings_view(snap.files@).take(i as int);
        assert(strings_view(snap.files@).take(i + 1).drop_last() == pre);
        assert(strings_view(snap.files@).take(i + 1).last() == snap.files@[i as int]@);
        let ghost before = strings_view(found@);
        let f = to_chars(snap.files[i].as_str());
        if starts_with_exec(&f, &prefix) && f.len() > prefix.len() {
            let rel = suffix_string(&f, prefix.len());
            found.push(rel);
            assert(strings_view(found@) =~= before.push(f@.skip(prefix@.len() as int)));
        } else {
            assert(strings_view(found@) =~= before + Seq::<Seq<char>>::empty());
        }
        i += 1;
    }
    assert(strings_view(snap.files@).take(i as int) =~= strings_view(snap.files@));
    let r = sort_strings(&found);
    proof {
        if snap.files_recorded_once() {
            let rel = strings_view(found@);
            lemma_relative_files_distinct(strings_view(snap.files@), prefix@);
            rel.lemma_multiset_has_no_duplicates();
            strings_view(r@).lemma_multiset_has_no_duplicates_conv();
        }
    }
    r
}

/// `"{region}/{city}"` for each city of each region.
pub open spec fn region_zone_names(rz: Seq<(String, Vec<String>)>) -> Seq<Seq<char>>
    decreases rz.len(),
{
    if rz.len() == 0 {
        Seq::empty()
    } else {
        region_zone_names(rz.drop_last()) + Seq::new(
            rz.last().1@.len(),
            |j: int| rz.last().0@ + "/"@ + rz.last().1@[j]@,
        )
    }
}

/// Every zone: the standalone ones and `Region/City` for each region's
/// zones, in one sorted list.
pub fn all_zones(standalone: &Vec<String>, by_region: &Vec<(String, Vec<String>)>) -> (r: Vec<
    String,
>)
    ensures
        strings_view(r@).to_multiset() == (strings_view(standalone@) + region_zone_names(
            by_region@,
        )).to_multiset(),
        sorted(strings_view(r@)),
{
    let mut all: Vec<String> = Vec::new();
    let mut i: usize = 0;
    while i < standalone.len()
        invariant
            i <= standalone@.len(),
            strings_view(all@) == strings_view(standalone@).take(i as int),
        decreases standalone.len() - i,
    {
        let ghost old_all = strings_view(all@);
        let s = standalone[i].clone();
        assert(s@ == strings_view(standalone@)[i as int]);
        all.push(s);
        assert(strings_view(all@) =~= old_all.push(s@));
        assert(strings_view(standalone@).take(i + 1) =~= strings_view(standalone@).take(
            i as int,
        ).push(s@));
        i += 1;
        assert(strings_view(all@) =~= strings_view(standalone@).take(i as int));
    }
    assert(strings_view(standalone@).take(i as int) == strings_view(standalone@));
    let mut r: usize = 0;
    assert(by_region@.take(0) =~= Seq::<(String, Vec<String>)>::empty());
    while r < by_region.len()
        invariant
            r <= by_region@.len(),
            strings_view(all@) == strings_view(standalone@) + region_zone_names(
                by_region@.take(r as int),
            ),
        decreases by_region.len() - r,
    {
        let region = by_region[r].0.as_str();
        let cities = &by_region[r].1;
        let ghost base = strings_view(all@);
        let mut c: usize = 0;
        while c < cities.len()
            invariant
                c <= cities@.len(),
                cities == &by_region@[r as int].1,
                region@ == by_region@[r as int].0@,
                strings_view(all@) == base + Seq::new(
                    c as nat,
                    |j: int| region@ + "/"@ + cities@[j]@,
                ),
            decreases cities.len() - c,
        {
            let mut v: Vec<char> = Vec::new();
            extend_str(&mut v, region);
            extend_str(&mut v, "/");
            extend_str(&mut v, cities[c].as_str());
            let ghost old_all = strings_view(all@);
            let z = from_chars(&v);
            assert(z@ == region@ + "/"@ + cities@[c as int]@);
            all.push(z);
            assert(strings_view(all@) =~= old_all.push(z@));
            c += 1;
            assert(strings_view(all@) =~= base + Seq::new(
                c as nat,
                |j: int| region@ + "/"@ + cities@[j]@,
            ));
        }
        assert(by_region@.take(r + 1).drop_last() == by_region@.take(r as int));
        assert(by_region@.take(r + 1).last() == by_region@[r as int]);
        r += 1;
        assert(strings_view(all@) =~= strings_view(standalone@) + region_zone_names(
            by_region@.take(r as int),
        ));
    }
    assert(by_region@.take(by_region@.len() as int) == by_region@);
    sort_strings(&all)
}

/// A zone name that may be looked up: not empty, no `..`.
pub open spec fn zone_name_ok(zone: Seq<char>) -> bool {
    zone.len() > 0 && !contains(zone, ".."@)
}

/// Where the tzfile of `zone` would be.
pub fn zone_path(env: &EnvVars, zone: &str) -> (p: String)
    ensures
        p@ == join(zoneinfo_root_spec(*env), zone@),
{
    let root = zoneinfo_root(env);
    join_path(root.as_str(), zone)
}

/// Whether `zone` names a real zone: a name that may be looked up, whose
/// tzfile (at `zone_path`) the caller found to be a regular file.
pub fn zone_exists(zone: &str, tzfile_is_file: bool) -> (r: bool)
    ensures
        r == (zone_name_ok(zone@) && tzfile_is_file),
{
    let z = to_chars(zone);
    let dots = to_chars("..");
    if z.len() == 0 || contains_exec(&z, &dots) {
        return false;
    }
    tzfile_is_file
}

} // verus!
