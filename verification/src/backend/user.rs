//! Accounts: the passwd/shadow/group lines for the new user, how existing
//! account files are updated, and the `elevate` policy (the user joins
//! `wheel`; there is no sudo and no separate root password).
use vstd::prelude::*;

use crate::text::{
    contains, contains_exec, ends_with, ends_with_exec, extend_chars, extend_str, from_chars,
    lemma_lines_unlines, lemma_unlines_lines, lines, lines_exec, matches_at, no_char, plain_line,
    seqs_of, starts_with, starts_with_exec, to_chars, unlines,
};

verus! {

/// `/etc/passwd` line of the new user (uid/gid 1000, bash, home under /home).
pub open spec fn passwd_line_spec(username: Seq<char>, full_name: Seq<char>) -> Seq<char> {
    username + ":x:1000:1000:"@ + full_name + ":/home/"@ + username + ":/bin/bash\n"@
}

/// `/etc/shadow` line of the new user with its password hash.
pub open spec fn shadow_line_spec(username: Seq<char>, hash: Seq<char>) -> Seq<char> {
    username + ":"@ + hash + ":20000:0:99999:7:::\n"@
}

/// The user's own group line.
pub open spec fn group_line_spec(username: Seq<char>) -> Seq<char> {
    username + ":x:1000:\n"@
}

/// The `wheel` group line with the user as its member.
pub open spec fn wheel_line_spec(username: Seq<char>) -> Seq<char> {
    "wheel:x:10:"@ + username + "\n"@
}

fn concat3(a: &str, b: &str, c: &str) -> (r: Vec<char>)
    ensures
        r@ == a@ + b@ + c@,
{
    let mut v: Vec<char> = Vec::new();
    extend_str(&mut v, a);
    extend_str(&mut v, b);
    extend_str(&mut v, c);
    v
}

pub fn passwd_line(username: &str, full_name: &str) -> (r: String)
    ensures
        r@ == passwd_line_spec(username@, full_name@),
{
    let mut v = concat3(username, ":x:1000:1000:", full_name);
    extend_str(&mut v, ":/home/");
    extend_str(&mut v, username);
    extend_str(&mut v, ":/bin/bash\n");
    from_chars(&v)
}

pub fn shadow_line(username: &str, hash: &str) -> (r: String)
    ensures
        r@ == shadow_line_spec(username@, hash@),
{
    let mut v = concat3(username, ":", hash);
    extend_str(&mut v, ":20000:0:99999:7:::\n");
    from_chars(&v)
}

pub fn group_line(username: &str) -> (r: String)
    ensures
        r@ == group_line_spec(username@),
{
    let v = concat3(username, ":x:1000:\n", "");
    assert(v@ =~= group_line_spec(username@)) by {
        reveal_strlit("");
    }
    from_chars(&v)
}

pub fn wheel_line(username: &str) -> (r: String)
    ensures
        r@ == wheel_line_spec(username@),
{
    let v = concat3("wheel:x:10:", username, "\n");
    from_chars(&v)
}

/// Every line of `ls` followed by `\n`, except that lines starting with
/// `prefix` are replaced by `line` (which carries its own `\n`).
pub open spec fn replace_keyed(ls: Seq<Seq<char>>, prefix: Seq<char>, line: Seq<char>) -> Seq<char>
    decreases ls.len(),
{
    if ls.len() == 0 {
        Seq::empty()
    } else {
        replace_keyed(ls.drop_last(), prefix, line) + if starts_with(ls.last(), prefix) {
            line
        } else {
            ls.last() + "\n"@
        }
    }
}

pub open spec fn has_keyed_line(ls: Seq<Seq<char>>, prefix: Seq<char>) -> bool {
    exists|i: int| 0 <= i < ls.len() && starts_with(ls[i], prefix)
}

/// An account file after writing `line` for `key`: every existing
/// `key:` line is replaced by it, or it is appended when there is none.
pub open spec fn upsert_line_spec(existing: Seq<char>, key: Seq<char>, line: Seq<char>) -> Seq<char> {
    let prefix = key + ":"@;
    if has_keyed_line(lines(existing), prefix) {
        replace_keyed(lines(existing), prefix, line)
    } else {
        existing + line
    }
}

fn replace_keyed_exec(ls: &Vec<Vec<char>>, prefix: &[char], line: &[char]) -> (r: Vec<char>)
    ensures
        r@ == replace_keyed(seqs_of(ls@), prefix@, line@),
        r@ == replace_keyed(seqs_of(ls@), prefix@, line@),
{
    let mut out: Vec<char> = Vec::new();
    let mut i: usize = 0;
    assert(seqs_of(ls@).take(0) =~= Seq::<Seq<char>>::empty());
    while i < ls.len()
        invariant
            i <= ls@.len(),
            out@ == replace_keyed(seqs_of(ls@).take(i as int), prefix@, line@),
        decreases ls.len() - i,
    {
        assert(seqs_of(ls@).take(i + 1).drop_last() == seqs_of(ls@).take(i as int));
        assert(seqs_of(ls@).take(i + 1).last() == ls@[i as int]@);
        if starts_with_exec(&ls[i], prefix) {
            extend_chars(&mut out, line);
        } else {
            extend_chars(&mut out, &ls[i]);
            extend_str(&mut out, "\n");
        }
        i += 1;
        assert(out@ =~= replace_keyed(seqs_of(ls@).take(i as int), prefix@, line@));
    }
    assert(seqs_of(ls@).take(i as int) == seqs_of(ls@));
    out
}

fn has_keyed_line_exec(ls: &Vec<Vec<char>>, prefix: &[char]) -> (r: bool)
    ensures
        r == has_keyed_line(seqs_of(ls@), prefix@),
{
    let mut i: usize = 0;
    while i < ls.len()
        invariant
            i <= ls@.len(),
            forall|j: int| 0 <= j < i ==> !starts_with(seqs_of(ls@)[j], prefix@),
        decreases ls.len() - i,
    {
        if starts_with_exec(&ls[i], prefix) {
            assert(starts_with(seqs_of(ls@)[i as int], prefix@));
            return true;
        }
        i += 1;
    }
    false
}

/// The new content of an account file after writing `line` for `key`
/// (the file's existing content is `existing`, empty when it is missing).
pub fn upsert_line(existing: &str, key: &str, line: &str) -> (r: String)
    ensures
        r@ == upsert_line_spec(existing@, key@, line@),
{
    let ex = to_chars(existing);
    let ls = lines_exec(&ex);
    let prefix = concat3(key, ":", "");
    proof {
        reveal_strlit("");
    }
    assert(prefix@ =~= key@ + ":"@);
    let l = to_chars(line);
    if has_keyed_line_exec(&ls, &prefix) {
        let out = replace_keyed_exec(&ls, &prefix, &l);
        from_chars(&out)
    } else {
        let mut out = ex;
        extend_chars(&mut out, &l);
        from_chars(&out)
    }
}

/// Index of the first line starting with `prefix`, or `ls.len()`.
pub open spec fn first_keyed(ls: Seq<Seq<char>>, prefix: Seq<char>) -> int
    decreases ls.len(),
{
    if ls.len() == 0 {
        0
    } else if starts_with(ls[0], prefix) {
        0
    } else {
        1 + first_keyed(ls.drop_first(), prefix)
    }
}

/// Every line followed by `\n`, with the user added to each `wheel:` line:
/// an empty member list gets `wheel:x:10:<user>`, otherwise `,<user>` is
/// appended.
pub open spec fn add_to_wheel_lines(ls: Seq<Seq<char>>, username: Seq<char>) -> Seq<char>
    decreases ls.len(),
{
    if ls.len() == 0 {
        Seq::empty()
    } else {
        let l = ls.last();
        add_to_wheel_lines(ls.drop_last(), username) + if starts_with(l, "wheel:"@) {
            if ends_with(l, ":"@) {
                wheel_line_spec(username)
            } else {
                l + ","@ + username + "\n"@
            }
        } else {
            l + "\n"@
        }
    }
}

/// The group file after making the user a `wheel` member, or none when
/// the first `wheel:` line already mentions the user (the file is left
/// alone). Without a `wheel:` line, the wheel line is appended.
pub open spec fn ensure_wheel_spec(existing: Seq<char>, username: Seq<char>) -> Option<Seq<char>> {
    let ls = lines(existing);
    let k = first_keyed(ls, "wheel:"@);
    if k < ls.len() {
        if contains(ls[k], username) {
            None
        } else {
            Some(add_to_wheel_lines(ls, username))
        }
    } else {
        Some(upsert_line_spec(existing, "wheel"@, wheel_line_spec(username)))
    }
}

pub proof fn lemma_first_keyed(ls: Seq<Seq<char>>, prefix: Seq<char>)
    ensures
        0 <= first_keyed(ls, prefix) <= ls.len(),
        first_keyed(ls, prefix) < ls.len() ==> starts_with(ls[first_keyed(ls, prefix)], prefix),
        forall|j: int| 0 <= j < first_keyed(ls, prefix) ==> !starts_with(ls[j], prefix),
    decreases ls.len(),
{
    if ls.len() > 0 && !starts_with(ls[0], prefix) {
        lemma_first_keyed(ls.drop_first(), prefix);
        assert forall|j: int| 0 <= j < first_keyed(ls, prefix) implies !starts_with(
            ls[j],
            prefix,
        ) by {
            if j > 0 {
                assert(ls[j] == ls.drop_first()[j - 1]);
            }
        }
    }
}

/// The new group file content that makes `username` a `wheel` member, or
/// `None` when the file already lists them (first `wheel:` line).
pub fn ensure_wheel_group(existing: &str, username: &str) -> (r: Option<String>)
    ensures
        crate::env::opt_view(r) == ensure_wheel_spec(existing@, username@),
{
    let ex = to_chars(existing);
    let ls = lines_exec(&ex);
    let wheel_prefix = to_chars("wheel:");
    let user = to_chars(username);
    let mut k: usize = 0;
    proof {
        lemma_first_keyed(seqs_of(ls@), "wheel:"@);
    }
    while k < ls.len() && !starts_with_exec(&ls[k], &wheel_prefix)
        invariant
            k <= ls@.len(),
            wheel_prefix@ == "wheel:"@,
            forall|j: int| 0 <= j < k ==> !starts_with(seqs_of(ls@)[j], "wheel:"@),
        decreases ls.len() - k,
    {
        k += 1;
    }
    if k < ls.len() {
        assert(seqs_of(ls@)[k as int] == ls@[k as int]@);
        assert(starts_with(seqs_of(ls@)[k as int], "wheel:"@));
    }
    assert(k == first_keyed(seqs_of(ls@), "wheel:"@));
    if k < ls.len() {
        if contains_exec(&ls[k], &user) {
            return None;
        }
        let mut out: Vec<char> = Vec::new();
        let colon = to_chars(":");
        let mut i: usize = 0;
        assert(seqs_of(ls@).take(0) =~= Seq::<Seq<char>>::empty());
        while i < ls.len()
            invariant
                i <= ls@.len(),
                wheel_prefix@ == "wheel:"@,
                colon@ == ":"@,
                user@ == username@,
                out@ == add_to_wheel_lines(seqs_of(ls@).take(i as int), username@),
            decreases ls.len() - i,
        {
            assert(seqs_of(ls@).take(i + 1).drop_last() == seqs_of(ls@).take(i as int));
            assert(seqs_of(ls@).take(i + 1).last() == ls@[i as int]@);
            if starts_with_exec(&ls[i], &wheel_prefix) {
                if ends_with_exec(&ls[i], &colon) {
                    let w = concat3("wheel:x:10:", username, "\n");
                    extend_chars(&mut out, &w);
                } else {
                    extend_chars(&mut out, &ls[i]);
                    extend_str(&mut out, ",");
                    extend_chars(&mut out, &user);
                    extend_str(&mut out, "\n");
                }
            } else {
                extend_chars(&mut out, &ls[i]);
                extend_str(&mut out, "\n");
            }
            i += 1;
            assert(out@ =~= add_to_wheel_lines(seqs_of(ls@).take(i as int), username@));
        }
        assert(seqs_of(ls@).take(i as int) == seqs_of(ls@));
        return Some(from_chars(&out));
    }
    let w = wheel_line(username);
    Some(upsert_line(existing, "wheel", w.as_str()))
}

/// The elevate policy written when none exists: wheel members may run
/// anything through `elevate`.
pub open spec fn elevate_policy_spec() -> Seq<char> {
    "# Zainium elevate policy — written by carve\n# NO sudo. Privilege tool is /bin/elevate (elevate-sudo + elevate-pam).\n# Syntax: classic grant lines (elevate policy file).\n\nDefaults env_reset\nDefaults secure_path=\"/overlayer/syshub/bin:/overlayer/syshub/sbin:/bin:/sbin\"\n\nroot ALL=(ALL:ALL) ALL\n%wheel ALL=(ALL:ALL) ALL\n"@
}

pub fn elevate_policy() -> (s: &'static str)
    ensures
        s@ == elevate_policy_spec(),
{
    "# Zainium elevate policy — written by carve\n# NO sudo. Privilege tool is /bin/elevate (elevate-sudo + elevate-pam).\n# Syntax: classic grant lines (elevate policy file).\n\nDefaults env_reset\nDefaults secure_path=\"/overlayer/syshub/bin:/overlayer/syshub/sbin:/bin:/sbin\"\n\nroot ALL=(ALL:ALL) ALL\n%wheel ALL=(ALL:ALL) ALL\n"
}

/// What is appended to an existing policy that grants nothing to `%wheel`;
/// `None` when it already mentions `%wheel`.
pub fn policy_wheel_addition(current: &str) -> (r: Option<&'static str>)
    ensures
        r is None <==> contains(current@, "%wheel"@),
        r matches Some(s) ==> s@ == "\n%wheel ALL=(ALL:ALL) ALL\n"@,
{
    let c = to_chars(current);
    let w = to_chars("%wheel");
    if contains_exec(&c, &w) {
        None
    } else {
        Some("\n%wheel ALL=(ALL:ALL) ALL\n")
    }
}


/// An elevate-pam service stack (TOML, never pam.d): `unix` required for
/// auth, account, password and session.
pub open spec fn pam_stack_spec(name: Seq<char>, description: Seq<char>) -> Seq<char> {
    "[service]\nname = \""@ + name + "\"\ndescription = \""@ + description
        + " (no pam.d)\"\n\n[[auth]]\ncontrol = \"required\"\nmodule = \"unix\"\n\n[[account]]\ncontrol = \"required\"\nmodule = \"unix\"\n\n[[password]]\ncontrol = \"required\"\nmodule = \"unix\"\n\n[[session]]\ncontrol = \"required\"\nmodule = \"unix\"\n"@
}

pub fn pam_stack(name: &str, description: &str) -> (r: String)
    ensures
        r@ == pam_stack_spec(name@, description@),
{
    let mut v: Vec<char> = Vec::new();
    extend_str(&mut v, "[service]\nname = \"");
    extend_str(&mut v, name);
    extend_str(&mut v, "\"\ndescription = \"");
    extend_str(&mut v, description);
    extend_str(
        &mut v,
        " (no pam.d)\"\n\n[[auth]]\ncontrol = \"required\"\nmodule = \"unix\"\n\n[[account]]\ncontrol = \"required\"\nmodule = \"unix\"\n\n[[password]]\ncontrol = \"required\"\nmodule = \"unix\"\n\n[[session]]\ncontrol = \"required\"\nmodule = \"unix\"\n",
    );
    from_chars(&v)
}

/// The elevate-pam service files seeded under `elevate-pam/services`
/// (each written only when missing): `elevate`, `login` and the COSMIC
/// greeter.
pub fn pam_service_stacks() -> (v: Vec<(&'static str, String)>)
    ensures
        v@.len() == 3,
        v@[0].0@ == "elevate.toml"@,
        v@[0].1@ == pam_stack_spec("elevate"@, "elevate privilege auth"@),
        v@[1].0@ == "login.toml"@,
        v@[1].1@ == pam_stack_spec("login"@, "console/greeter login auth"@),
        v@[2].0@ == "cosmic-greeter.toml"@,
        v@[2].1@ == pam_stack_spec("cosmic-greeter"@, "COSMIC greeter auth"@),
{
    let mut v: Vec<(&'static str, String)> = Vec::new();
    v.push(("elevate.toml", pam_stack("elevate", "elevate privilege auth")));
    v.push(("login.toml", pam_stack("login", "console/greeter login auth")));
    v.push(("cosmic-greeter.toml", pam_stack("cosmic-greeter", "COSMIC greeter auth")));
    v
}


/// The account files an empty `etc` gets before the user is added: root
/// with bash, its group, and a locked root password.
pub fn base_account_files() -> (v: Vec<(&'static str, &'static str)>)
    ensures
        v@.len() == 3,
        v@[0].0@ == "passwd"@ && v@[0].1@ == "root:x:0:0:root:/root:/bin/bash\n"@,
        v@[1].0@ == "group"@ && v@[1].1@ == "root:x:0:\n"@,
        v@[2].0@ == "shadow"@ && v@[2].1@ == "root:!:20000:0:99999:7:::\n"@,
{
    let mut v: Vec<(&'static str, &'static str)> = Vec::new();
    v.push(("passwd", "root:x:0:0:root:/root:/bin/bash\n"));
    v.push(("group", "root:x:0:\n"));
    v.push(("shadow", "root:!:20000:0:99999:7:::\n"));
    v
}


// ---------------------------------------------------------------------
// What writing account lines guarantees
// ---------------------------------------------------------------------

/// An account file that reads back as its lines: no `\r`, and empty or
/// ending in `\n`.
pub open spec fn clean_file(s: Seq<char>) -> bool {
    no_char(s, '\r') && (s.len() == 0 || s.last() == '\n')
}

/// The lines `replace_keyed` writes: keyed lines become `l0`.
pub open spec fn keyed_map(ls: Seq<Seq<char>>, prefix: Seq<char>, l0: Seq<char>) -> Seq<Seq<char>> {
    Seq::new(ls.len(), |i: int| if starts_with(ls[i], prefix) { l0 } else { ls[i] })
}

proof fn lemma_replace_keyed_unlines(ls: Seq<Seq<char>>, prefix: Seq<char>, l0: Seq<char>)
    ensures
        replace_keyed(ls, prefix, l0 + "\n"@) == unlines(keyed_map(ls, prefix, l0)),
    decreases ls.len(),
{
    if ls.len() > 0 {
        lemma_replace_keyed_unlines(ls.drop_last(), prefix, l0);
        assert(keyed_map(ls, prefix, l0).drop_last() =~= keyed_map(ls.drop_last(), prefix, l0));
        assert(replace_keyed(ls, prefix, l0 + "\n"@) =~= unlines(keyed_map(ls, prefix, l0)));
    } else {
        assert(keyed_map(ls, prefix, l0) =~= Seq::<Seq<char>>::empty());
    }
}

/// Writing the same line for a key twice leaves the file as writing it
/// once: the second write finds the key's line and rewrites it in place,
/// so the line is never appended again.
pub proof fn lemma_upsert_line_idempotent(existing: Seq<char>, key: Seq<char>, l0: Seq<char>)
    requires
        clean_file(existing),
        starts_with(l0, key + ":"@),
        plain_line(l0),
    ensures
        upsert_line_spec(upsert_line_spec(existing, key, l0 + "\n"@), key, l0 + "\n"@)
            == upsert_line_spec(existing, key, l0 + "\n"@),
{
    let p = key + ":"@;
    let l = l0 + "\n"@;
    let ls = lines(existing);
    lemma_unlines_lines(existing);
    if has_keyed_line(ls, p) {
        let m1 = keyed_map(ls, p, l0);
        lemma_replace_keyed_unlines(ls, p, l0);
        assert forall|i: int| 0 <= i < m1.len() implies plain_line(#[trigger] m1[i]) by {
            if !starts_with(ls[i], p) {
                assert(plain_line(ls[i]));
            }
        }
        lemma_lines_unlines(m1);
        let w = choose|i: int| 0 <= i < ls.len() && starts_with(ls[i], p);
        assert(starts_with(m1[w], p));
        assert(has_keyed_line(m1, p));
        lemma_replace_keyed_unlines(m1, p, l0);
        assert(keyed_map(m1, p, l0) =~= m1);
    } else {
        let ys = ls.push(l0);
        assert(ys.drop_last() =~= ls);
        assert(unlines(ys) =~= existing + l);
        assert forall|i: int| 0 <= i < ys.len() implies plain_line(#[trigger] ys[i]) by {
            if i < ls.len() {
                assert(ys[i] == ls[i]);
            }
        }
        lemma_lines_unlines(ys);
        assert(starts_with(ys[ls.len() as int], p));
        assert(has_keyed_line(ys, p));
        lemma_replace_keyed_unlines(ys, p, l0);
        assert forall|i: int| 0 <= i < ys.len() implies (#[trigger] keyed_map(ys, p, l0)[i])
            == ys[i] by {
            if i < ls.len() {
                assert(ys[i] == ls[i]);
                assert(!starts_with(ls[i], p));
            }
        }
        assert(keyed_map(ys, p, l0) =~= ys);
    }
}

/// The group lines `add_to_wheel_lines` writes, without their `\n`.
pub open spec fn wheel_map(ls: Seq<Seq<char>>, username: Seq<char>) -> Seq<Seq<char>> {
    Seq::new(
        ls.len(),
        |i: int|
            if starts_with(ls[i], "wheel:"@) {
                if ends_with(ls[i], ":"@) {
                    "wheel:x:10:"@ + username
                } else {
                    ls[i] + ","@ + username
                }
            } else {
                ls[i]
            },
    )
}

proof fn lemma_add_to_wheel_unlines(ls: Seq<Seq<char>>, username: Seq<char>)
    ensures
        add_to_wheel_lines(ls, username) == unlines(wheel_map(ls, username)),
    decreases ls.len(),
{
    if ls.len() > 0 {
        lemma_add_to_wheel_unlines(ls.drop_last(), username);
        assert(wheel_map(ls, username).drop_last() =~= wheel_map(ls.drop_last(), username));
        reveal_strlit("\n");
        reveal_strlit("wheel:x:10:");
        assert(add_to_wheel_lines(ls, username) =~= unlines(wheel_map(ls, username)));
    } else {
        assert(wheel_map(ls, username) =~= Seq::<Seq<char>>::empty());
    }
}

proof fn lemma_suffix_contained(a: Seq<char>, u: Seq<char>)
    ensures
        contains(a + u, u),
{
    assert((a + u).subrange(a.len() as int, (a + u).len() as int) =~= u);
    assert(matches_at(a + u, a.len() as int, u));
}

proof fn lemma_first_keyed_of(ls: Seq<Seq<char>>, prefix: Seq<char>, k: int)
    requires
        0 <= k < ls.len(),
        starts_with(ls[k], prefix),
        forall|j: int| 0 <= j < k ==> !starts_with(ls[j], prefix),
    ensures
        first_keyed(ls, prefix) == k,
{
    lemma_first_keyed(ls, prefix);
}

/// Once the group file has been updated, its first `wheel:` line names
/// the user: the account is a `wheel` member, so `elevate` grants it.
pub proof fn lemma_wheel_lists_user(existing: Seq<char>, username: Seq<char>)
    requires
        clean_file(existing),
        plain_line(username),
    ensures
        ({
            let after = match ensure_wheel_spec(existing, username) {
                Some(o) => o,
                None => existing,
            };
            let ls = lines(after);
            first_keyed(ls, "wheel:"@) < ls.len() && contains(
                ls[first_keyed(ls, "wheel:"@)],
                username,
            )
        }),
{
    let ls = lines(existing);
    let wp = "wheel:"@;
    lemma_unlines_lines(existing);
    lemma_first_keyed(ls, wp);
    let k = first_keyed(ls, wp);
    reveal_strlit("wheel:");
    reveal_strlit("wheel:x:10:");
    reveal_strlit(",");
    reveal_strlit(":");
    if k < ls.len() {
        if !contains(ls[k], username) {
            let m = wheel_map(ls, username);
            lemma_add_to_wheel_unlines(ls, username);
            assert forall|i: int| 0 <= i < m.len() implies plain_line(#[trigger] m[i]) by {
                assert(plain_line(ls[i]));
                if starts_with(ls[i], wp) {
                    if ends_with(ls[i], ":"@) {
                        let w = "wheel:x:10:"@ + username;
                        assert forall|j: int| 0 <= j < w.len() implies w[j] != '\n' && w[j]
                            != '\r' by {
                            if j >= 11 {
                                assert(w[j] == username[j - 11]);
                            }
                        }
                    } else {
                        let w = ls[i] + ","@ + username;
                        assert forall|j: int| 0 <= j < w.len() implies w[j] != '\n' && w[j]
                            != '\r' by {
                            if j < ls[i].len() {
                                assert(w[j] == ls[i][j]);
                            } else if j > ls[i].len() {
                                assert(w[j] == username[j - ls[i].len() - 1]);
                            }
                        }
                    }
                }
            }
            lemma_lines_unlines(m);
            assert forall|j: int| 0 <= j < m.len() implies (starts_with(#[trigger] m[j], wp)
                <==> starts_with(ls[j], wp)) by {
                if starts_with(ls[j], wp) {
                    if ends_with(ls[j], ":"@) {
                        assert(("wheel:x:10:"@ + username).subrange(0, 6) =~= wp);
                    } else {
                        assert((ls[j] + ","@ + username).subrange(0, 6) =~= ls[j].subrange(0, 6));
                    }
                }
            }
            lemma_first_keyed_of(m, wp, k);
            if ends_with(ls[k], ":"@) {
                lemma_suffix_contained("wheel:x:10:"@, username);
            } else {
                lemma_suffix_contained(ls[k] + ","@, username);
                assert(ls[k] + ","@ + username == (ls[k] + ","@) + username);
            }
        }
    } else {
        assert(!has_keyed_line(ls, wp + Seq::<char>::empty())) by {
            assert(wp + Seq::<char>::empty() =~= wp);
        }
        let w0 = "wheel:x:10:"@ + username;
        assert("wheel"@ + ":"@ =~= wp) by {
            reveal_strlit("wheel");
        }
        assert(wheel_line_spec(username) =~= w0 + "\n"@);
        let ys = ls.push(w0);
        assert(ys.drop_last() =~= ls);
        assert(unlines(ys) =~= existing + wheel_line_spec(username));
        assert forall|i: int| 0 <= i < ys.len() implies plain_line(#[trigger] ys[i]) by {
            if i < ls.len() {
                assert(ys[i] == ls[i]);
            } else {
                assert forall|j: int| 0 <= j < w0.len() implies w0[j] != '\n' && w0[j] != '\r' by {
                    if j >= 11 {
                        assert(w0[j] == username[j - 11]);
                    }
                }
            }
        }
        lemma_lines_unlines(ys);
        assert(w0.subrange(0, 6) =~= wp);
        assert forall|j: int| 0 <= j < ls.len() implies !starts_with(#[trigger] ys[j], wp) by {
            assert(ys[j] == ls[j]);
        }
        lemma_first_keyed_of(ys, wp, ls.len() as int);
        lemma_suffix_contained("wheel:x:10:"@, username);
    }
}

} // verus!
