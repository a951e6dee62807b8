//! Outcomes of privileged commands. Commands run as root directly, or
//! through the setuid `elevate` (never sudo); the caller runs them and
//! hands the outcome here, where success and the error text are decided.
use vstd::prelude::*;

use crate::env::{opt_view, EnvVars};
use crate::snapshot::FsSnapshot;
use crate::text::{dec, extend_str, from_chars, owned, push_dec, res_view, strings_view};

verus! {

/// What a finished command reported.
pub struct CommandOutput {
    /// The exit status was success.
    pub success: bool,
    /// The exit code, when the process exited (not killed by a signal).
    pub code: Option<i32>,
    pub stdout: Vec<u8>,
    pub stderr: Vec<u8>,
}

/// A program and its arguments.
pub struct CommandLine {
    pub program: &'static str,
    pub args: Vec<String>,
}

/// A command as the specifications see it: program and arguments.
pub open spec fn cmd_view(c: CommandLine) -> (Seq<char>, Seq<Seq<char>>) {
    (c.program@, strings_view(c.args@))
}

/// The text `format!("{:?}", args)` gives for a slice of strings.
pub uninterp spec fn debug_str_list(args: Seq<Seq<char>>) -> Seq<char>;

/// The text `String::from_utf8_lossy` decodes from `bytes`.
pub uninterp spec fn utf8_lossy(bytes: Seq<u8>) -> Seq<char>;

pub open spec fn str_views(args: Seq<&str>) -> Seq<Seq<char>> {
    Seq::new(args.len(), |i: int| args[i]@)
}

/// `<[&str] as Debug>::fmt`: the result is named by `debug_str_list` of
/// the arguments.
#[verifier::external_body]
fn debug_args(args: &[&str]) -> (r: String)
    ensures
        r@ == debug_str_list(str_views(args@)),
{
    format!("{:?}", args)
}

/// `String::from_utf8_lossy`: the result is named by `utf8_lossy`; valid
/// UTF-8 is decoded as it is.
#[verifier::external_body]
fn lossy_utf8(bytes: &[u8]) -> (r: String)
    ensures
        r@ == utf8_lossy(bytes@),
        vstd::utf8::valid_utf8(bytes@) ==> r@ == vstd::utf8::decode_utf8(bytes@),
{
    String::from_utf8_lossy(bytes).into_owned()
}

/// A command's standard output, decoded as `String::from_utf8_lossy` does.
pub fn stdout_text(out: &CommandOutput) -> (r: String)
    ensures
        r@ == utf8_lossy(out.stdout@),
{
    lossy_utf8(out.stdout.as_slice())
}

/// A command's standard error, decoded as `String::from_utf8_lossy` does.
pub fn stderr_text(out: &CommandOutput) -> (r: String)
    ensures
        r@ == utf8_lossy(out.stderr@),
{
    lossy_utf8(out.stderr.as_slice())
}

/// Decimal text of a signed integer.
pub open spec fn int_text(n: int) -> Seq<char> {
    if n < 0 {
        "-"@ + dec((-n) as nat)
    } else {
        dec(n as nat)
    }
}

/// `format!("{:?}", code)` for an exit code.
pub open spec fn code_debug(code: Option<i32>) -> Seq<char> {
    match code {
        Some(c) => "Some("@ + int_text(c as int) + ")"@,
        None => "None"@,
    }
}

/// The error `run_root_ok` reports for a command that ran and failed.
pub open spec fn failed_status_error(
    program: Seq<char>,
    args: Seq<Seq<char>>,
    out: CommandOutput,
) -> Seq<char> {
    program + " "@ + debug_str_list(args) + " failed (status "@ + code_debug(out.code) + "): "@
        + utf8_lossy(out.stderr@)
}

fn push_int(v: &mut Vec<char>, n: i32)
    ensures
        final(v)@ == old(v)@ + int_text(n as int),
{
    if n < 0 {
        extend_str(v, "-");
        let m: i64 = -(n as i64);
        push_dec(v, m as u128);
    } else {
        push_dec(v, n as u128);
    }
}

/// Requires the command to have succeeded.
pub fn run_root_ok(program: &str, args: &[&str], outcome: Result<CommandOutput, String>) -> (r:
    Result<(), String>)
    ensures
        match outcome {
            Err(e) => r matches Err(e2) && e2@ == e@,
            Ok(out) => if out.success {
                r is Ok
            } else {
                r matches Err(e) && e@ == failed_status_error(program@, str_views(args@), out)
            },
        },
{
    let out = match outcome {
        Err(e) => {
            return Err(e);
        },
        Ok(o) => o,
    };
    if out.success {
        return Ok(());
    }
    let mut v: Vec<char> = Vec::new();
    extend_str(&mut v, program);
    extend_str(&mut v, " ");
    let dbg = debug_args(args);
    extend_str(&mut v, dbg.as_str());
    extend_str(&mut v, " failed (status ");
    match out.code {
        Some(c) => {
            extend_str(&mut v, "Some(");
            push_int(&mut v, c);
            extend_str(&mut v, ")");
        },
        None => {
            extend_str(&mut v, "None");
        },
    }
    extend_str(&mut v, "): ");
    let err = lossy_utf8(out.stderr.as_slice());
    extend_str(&mut v, err.as_str());
    assert(v@ =~= failed_status_error(program@, str_views(args@), out));
    Err(from_chars(&v))
}

/// Captures stdout of a command that must have succeeded.
pub fn run_root_stdout(program: &str, outcome: Result<CommandOutput, String>) -> (r: Result<
    String,
    String,
>)
    ensures
        match outcome {
            Err(e) => r matches Err(e2) && e2@ == e@,
            Ok(out) => if out.success {
                r matches Ok(s) && s@ == utf8_lossy(out.stdout@)
            } else {
                r matches Err(e) && e@ == program@ + " failed: "@ + utf8_lossy(out.stderr@)
            },
        },
{
    let out = match outcome {
        Err(e) => {
            return Err(e);
        },
        Ok(o) => o,
    };
    if !out.success {
        let mut v: Vec<char> = Vec::new();
        extend_str(&mut v, program);
        extend_str(&mut v, " failed: ");
        let err = lossy_utf8(out.stderr.as_slice());
        extend_str(&mut v, err.as_str());
        return Err(from_chars(&v));
    }
    Ok(lossy_utf8(out.stdout.as_slice()))
}


/// Where `elevate` is: `ZAINIUM_ELEVATE` when it names a file, else
/// `elevate` on the PATH (`on_path`), else the first of the syshub
/// locations that is a file. Never sudo, never /usr.
pub open spec fn elevate_bin_spec(env: EnvVars, s: FsSnapshot, on_path: bool) -> Option<Seq<char>> {
    match env.lookup("ZAINIUM_ELEVATE"@) {
        Some(p) if p.len() > 0 && s.file(p) => Some(p),
        _ => if on_path {
            Some("elevate"@)
        } else if s.file("/bin/elevate"@) {
            Some("/bin/elevate"@)
        } else if s.file("/overlayer/syshub/bin/elevate"@) {
            Some("/overlayer/syshub/bin/elevate"@)
        } else if s.file("/sbin/elevate"@) {
            Some("/sbin/elevate"@)
        } else {
            None
        },
    }
}

/// The paths whose kind `elevate_bin` reads.
pub fn elevate_probes(env: &EnvVars) -> (v: Vec<String>)
    ensures
        strings_view(v@) == (match env.lookup("ZAINIUM_ELEVATE"@) {
            Some(p) => seq![p],
            None => Seq::<Seq<char>>::empty(),
        }) + seq!["/bin/elevate"@, "/overlayer/syshub/bin/elevate"@, "/sbin/elevate"@],
{
    let mut v: Vec<String> = Vec::new();
    if let Some(p) = env.get("ZAINIUM_ELEVATE") {
        v.push(p);
    }
    v.push(owned("/bin/elevate"));
    v.push(owned("/overlayer/syshub/bin/elevate"));
    v.push(owned("/sbin/elevate"));
    assert(strings_view(v@) =~= (match env.lookup("ZAINIUM_ELEVATE"@) {
        Some(p) => seq![p],
        None => Seq::<Seq<char>>::empty(),
    }) + seq!["/bin/elevate"@, "/overlayer/syshub/bin/elevate"@, "/sbin/elevate"@]);
    v
}

/// Resolves the `elevate` binary from the environment, the snapshot of
/// its candidate paths, and whether `elevate` is on the PATH.
pub fn elevate_bin(env: &EnvVars, snap: &FsSnapshot, on_path: bool) -> (r: Option<String>)
    ensures
        opt_view(r) == elevate_bin_spec(*env, *snap, on_path),
{
    if let Some(p) = env.get("ZAINIUM_ELEVATE") {
        if !p.as_str().is_empty() && snap.is_file(p.as_str()) {
            return Some(p);
        }
    }
    if on_path {
        Some(owned("elevate"))
    } else if snap.is_file("/bin/elevate") {
        Some(owned("/bin/elevate"))
    } else if snap.is_file("/overlayer/syshub/bin/elevate") {
        Some(owned("/overlayer/syshub/bin/elevate"))
    } else if snap.is_file("/sbin/elevate") {
        Some(owned("/sbin/elevate"))
    } else {
        None
    }
}

/// How a command runs as root: directly when this process is root, else
/// as `elevate <program> <args…>`; without `elevate` it cannot run.
pub fn root_invocation(
    program: &str,
    args: &[&str],
    is_root: bool,
    elevate: Option<String>,
) -> (r: Result<(String, Vec<String>), String>)
    ensures
        is_root ==> (r matches Ok((p, a)) && p@ == program@ && strings_view(a@) == str_views(
            args@,
        )),
        !is_root ==> match elevate {
            Some(e) => r matches Ok((p, a)) && p@ == e@ && strings_view(a@) == seq![program@]
                + str_views(args@),
            None => r matches Err(m) && m@
                == "not root and `elevate` not found (install Zainium elevate — no sudo on this OS)"@,
        },
{
    let mut a: Vec<String> = Vec::new();
    let prog = if is_root {
        owned(program)
    } else {
        match &elevate {
            Some(e) => {
                a.push(owned(program));
                e.clone()
            },
            None => {
                return Err(
                    owned(
                        "not root and `elevate` not found (install Zainium elevate — no sudo on this OS)",
                    ),
                );
            },
        }
    };
    let ghost head = strings_view(a@);
    let mut i: usize = 0;
    while i < args.len()
        invariant
            i <= args@.len(),
            strings_view(a@) == head + str_views(args@).take(i as int),
        decreases args.len() - i,
    {
        let ghost before = strings_view(a@);
        a.push(owned(args[i]));
        assert(strings_view(a@) =~= before.push(args@[i as int]@));
        assert(str_views(args@).take(i + 1) =~= str_views(args@).take(i as int).push(
            args@[i as int]@,
        ));
        i += 1;
    }
    assert(str_views(args@).take(i as int) =~= str_views(args@));
    assert(is_root ==> head =~= Seq::<Seq<char>>::empty());
    assert(strings_view(a@) =~= head + str_views(args@));
    Ok((prog, a))
}

} // verus!
