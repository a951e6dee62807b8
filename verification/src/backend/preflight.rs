//! Preflight: the checks that run before any disk is touched.
use vstd::prelude::*;

use crate::backend::assets::strs_view;
use crate::backend::quantra::join_with;
use crate::model::install_plan::{utf8_len, valid_username_spec, InstallMode, InstallPlan};
use crate::text::{extend_str, from_chars, owned, to_chars, trim, trim_exec};

verus! {

pub open spec fn root_required_error() -> Seq<char> {
    "real install blocked: must run as root (relaunch via `elevate carve`) — deploying the OS and creating the user write directly into the mounted target root, which needs this process itself to be root, not just individual commands elevated one at a time"@
}

/// Why the install may not start, if it may not: an invalid user, no
/// hostname, or, for a real install, no usable target disk or a process
/// that is not root (`is_root`, reported by the caller).
pub open spec fn preflight_refusal(plan: InstallPlan, is_root: bool) -> Option<Seq<char>> {
    if !(valid_username_spec(plan.username@) && utf8_len(plan.password@) >= 4) {
        Some("invalid username/password"@)
    } else if trim(plan.hostname@).len() == 0 {
        Some("hostname required"@)
    } else if !plan.dry_run && (plan.disk is None || plan.disk->0.is_live_medium) {
        Some("invalid or live target disk"@)
    } else if !plan.dry_run && !is_root {
        Some(root_required_error())
    } else {
        None
    }
}

/// The checks made before asset discovery.
pub fn preflight_check(plan: &InstallPlan, is_root: bool) -> (r: Result<(), String>)
    ensures
        r is Ok <==> preflight_refusal(*plan, is_root) is None,
        r matches Err(e) ==> preflight_refusal(*plan, is_root) == Some(e@),
{
    if plan.validate_user().is_err() {
        return Err(owned("invalid username/password"));
    }
    let h = to_chars(plan.hostname.as_str());
    if trim_exec(&h).len() == 0 {
        return Err(owned("hostname required"));
    }
    if !plan.dry_run {
        let bad_disk = match &plan.disk {
            None => true,
            Some(d) => d.is_live_medium,
        };
        if bad_disk {
            return Err(owned("invalid or live target disk"));
        }
        if !is_root {
            return Err(
                owned(
                    "real install blocked: must run as root (relaunch via `elevate carve`) — deploying the OS and creating the user write directly into the mounted target root, which needs this process itself to be root, not just individual commands elevated one at a time",
                ),
            );
        }
    }
    Ok(())
}

/// The refusal a real install gets when assets are missing.
pub fn missing_assets_refusal(missing: &Vec<&'static str>) -> (r: Option<String>)
    ensures
        r is None <==> missing@.len() == 0,
        r matches Some(e) ==> e@ == "real install blocked; missing assets: "@ + join_with(
            strs_view(missing@),
            "; "@,
        ),
{
    if missing.len() == 0 {
        return None;
    }
    let mut v: Vec<char> = Vec::new();
    extend_str(&mut v, "real install blocked; missing assets: ");
    let mut i: usize = 0;
    let ghost head = v@;
    assert(strs_view(missing@).take(0) =~= Seq::<Seq<char>>::empty());
    while i < missing.len()
        invariant
            i <= missing@.len(),
            v@ == head + join_with(strs_view(missing@).take(i as int), "; "@),
        decreases missing.len() - i,
    {
        let ghost next = strs_view(missing@).take(i + 1);
        assert(next.drop_last() == strs_view(missing@).take(i as int));
        assert(next.last() == missing@[i as int]@);
        if i > 0 {
            extend_str(&mut v, "; ");
        }
        extend_str(&mut v, missing[i]);
        i += 1;
        assert(v@ =~= head + join_with(strs_view(missing@).take(i as int), "; "@));
    }
    assert(strs_view(missing@).take(i as int) == strs_view(missing@));
    Some(from_chars(&v))
}

/// `{:?}` of an install mode.
pub open spec fn mode_name(m: InstallMode) -> Seq<char> {
    match m {
        InstallMode::ExpandSquash => "ExpandSquash"@,
        InstallMode::RsyncLiveTree => "RsyncLiveTree"@,
        InstallMode::KeepSquash => "KeepSquash"@,
    }
}

pub open spec fn bool_word(b: bool) -> Seq<char> {
    if b {
        "true"@
    } else {
        "false"@
    }
}

fn push_bool(v: &mut Vec<char>, b: bool)
    ensures
        final(v)@ == old(v)@ + bool_word(b),
{
    if b {
        extend_str(v, "true");
    } else {
        extend_str(v, "false");
    }
}

/// The closing preflight log line.
pub fn preflight_summary(plan: &InstallPlan, os_source: bool, boot_payload: bool) -> (s: String)
    ensures
        s@ == "preflight: host="@ + plan.hostname@ + " user="@ + plan.username@ + " mode="@
            + mode_name(plan.mode) + " dry_run="@ + bool_word(plan.dry_run) + " os_source="@
            + bool_word(os_source) + " boot_payload="@ + bool_word(boot_payload),
{
    let mut v: Vec<char> = Vec::new();
    extend_str(&mut v, "preflight: host=");
    extend_str(&mut v, plan.hostname.as_str());
    extend_str(&mut v, " user=");
    extend_str(&mut v, plan.username.as_str());
    extend_str(&mut v, " mode=");
    match plan.mode {
        InstallMode::ExpandSquash => extend_str(&mut v, "ExpandSquash"),
        InstallMode::RsyncLiveTree => extend_str(&mut v, "RsyncLiveTree"),
        InstallMode::KeepSquash => extend_str(&mut v, "KeepSquash"),
    }
    extend_str(&mut v, " dry_run=");
    push_bool(&mut v, plan.dry_run);
    extend_str(&mut v, " os_source=");
    push_bool(&mut v, os_source);
    extend_str(&mut v, " boot_payload=");
    push_bool(&mut v, boot_payload);
    from_chars(&v)
}

} // verus!
