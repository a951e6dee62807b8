//! Quantra services: hostname and timezone files, and enable markers for
//! services whose TOML already exists on the target (never systemctl,
//! never an invented service file).
use vstd::prelude::*;

use crate::backend::paths::{join, join_path};
use crate::text::{dec, extend_str, from_chars, owned, push_dec, strings_view};

verus! {

/// A one-value `/etc` file: the value and a newline.
pub fn etc_value_file(value: &str) -> (r: String)
    ensures
        r@ == value@ + "\n"@,
{
    let mut v: Vec<char> = Vec::new();
    extend_str(&mut v, value);
    extend_str(&mut v, "\n");
    from_chars(&v)
}

/// Where the TOML of service `name` lives under the services directory.
pub fn service_toml_path(services_dir: &str, name: &str) -> (r: String)
    ensures
        r@ == join(services_dir@, name@ + ".toml"@),
{
    let mut f: Vec<char> = Vec::new();
    extend_str(&mut f, name);
    extend_str(&mut f, ".toml");
    let fname = from_chars(&f);
    join_path(services_dir, fname.as_str())
}

/// Number of `true` entries.
pub open spec fn count_true(s: Seq<bool>) -> nat
    decreases s.len(),
{
    if s.len() == 0 {
        0
    } else {
        count_true(s.drop_last()) + if s.last() {
            1nat
        } else {
            0nat
        }
    }
}

/// Items joined with `sep`.
pub open spec fn join_with(items: Seq<Seq<char>>, sep: Seq<char>) -> Seq<char>
    decreases items.len(),
{
    if items.len() == 0 {
        Seq::empty()
    } else if items.len() == 1 {
        items[0]
    } else {
        join_with(items.drop_last(), sep) + sep + items.last()
    }
}

/// `items.join(sep)`.
pub fn join_strings(items: &Vec<String>, sep: &str) -> (r: String)
    ensures
        r@ == join_with(strings_view(items@), sep@),
{
    let mut v: Vec<char> = Vec::new();
    let mut i: usize = 0;
    assert(strings_view(items@).take(0) =~= Seq::<Seq<char>>::empty());
    while i < items.len()
        invariant
            i <= items@.len(),
            v@ == join_with(strings_view(items@).take(i as int), sep@),
        decreases items.len() - i,
    {
        let ghost next = strings_view(items@).take(i + 1);
        assert(next.drop_last() == strings_view(items@).take(i as int));
        assert(next.last() == items@[i as int]@);
        if i > 0 {
            extend_str(&mut v, sep);
        }
        extend_str(&mut v, items[i].as_str());
        i += 1;
        assert(v@ =~= join_with(strings_view(items@).take(i as int), sep@));
    }
    assert(strings_view(items@).take(i as int) == strings_view(items@));
    from_chars(&v)
}

/// The job's result once the markers are written for the services whose
/// TOML exists (`toml_exists[i]` for `names[i]`): a real install must
/// enable at least one service.
pub open spec fn enable_outcome_spec(names: Seq<Seq<char>>, toml_exists: Seq<bool>, dry_run: bool) -> Result<
    Seq<char>,
    Seq<char>,
> {
    let enabled = count_true(toml_exists);
    if enabled == 0 && !dry_run {
        Err("no Quantra services enabled; missing TOMLs for: "@ + join_with(names, ", "@))
    } else {
        Ok("enabled="@ + dec(enabled) + " skipped="@ + dec((toml_exists.len() - enabled) as nat))
    }
}

proof fn lemma_count_true_bound(s: Seq<bool>)
    ensures
        count_true(s) <= s.len(),
    decreases s.len(),
{
    if s.len() > 0 {
        lemma_count_true_bound(s.drop_last());
    }
}

pub fn enable_outcome(names: &Vec<String>, toml_exists: &[bool], dry_run: bool) -> (r: Result<
    String,
    String,
>)
    requires
        names@.len() == toml_exists@.len(),
    ensures
        crate::text::res_view(r) == enable_outcome_spec(strings_view(names@), toml_exists@, dry_run),
{
    let mut enabled: usize = 0;
    let mut i: usize = 0;
    assert(toml_exists@.take(0) =~= Seq::<bool>::empty());
    while i < toml_exists.len()
        invariant
            i <= toml_exists@.len(),
            enabled == count_true(toml_exists@.take(i as int)),
            enabled <= i,
        decreases toml_exists.len() - i,
    {
        assert(toml_exists@.take(i + 1).drop_last() == toml_exists@.take(i as int));
        if toml_exists[i] {
            enabled += 1;
        }
        i += 1;
    }
    assert(toml_exists@.take(i as int) == toml_exists@);
    if enabled == 0 && !dry_run {
        let mut v: Vec<char> = Vec::new();
        extend_str(&mut v, "no Quantra services enabled; missing TOMLs for: ");
        let joined = join_strings(names, ", ");
        extend_str(&mut v, joined.as_str());
        return Err(from_chars(&v));
    }
    let mut v: Vec<char> = Vec::new();
    extend_str(&mut v, "enabled=");
    push_dec(&mut v, enabled as u128);
    extend_str(&mut v, " skipped=");
    push_dec(&mut v, (toml_exists.len() - enabled) as u128);
    Ok(from_chars(&v))
}

/// The job's result when the target has no services directory yet.
pub fn services_dir_missing(services_dir: &str, dry_run: bool) -> (r: Result<String, String>)
    ensures
        dry_run ==> (r matches Ok(s) && s@ == "quantra deferred (no service tree)"@),
        !dry_run ==> (r matches Err(e) && e@ == "quantra services dir missing: "@ + services_dir@
            + " (deploy OS first)"@),
{
    if dry_run {
        return Ok(owned("quantra deferred (no service tree)"));
    }
    let mut v: Vec<char> = Vec::new();
    extend_str(&mut v, "quantra services dir missing: ");
    extend_str(&mut v, services_dir);
    extend_str(&mut v, " (deploy OS first)");
    Err(from_chars(&v))
}

} // verus!
