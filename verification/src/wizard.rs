//! The interactive wizard's screens and checks: the step header, the
//! keyboard-layout list, password entry, timezone cities and the
//! confirmation a real install asks for. The prompts themselves are the
//! caller's.
use vstd::prelude::*;

use crate::backend::disk::{lemma_trim_start, words, words_exec};
use crate::model::install_plan::utf8_len;
use crate::text::{
    chars_eq, dec, extend_str, from_chars, lines, lines_exec, push_dec, seqs_of, str_eq,
    strings_view, to_chars, trim, trim_exec,
};

verus! {

/// Welcome, Locale & Keyboard, Network, Timezone, Disk, User, Summary,
/// Installing, Finished.
pub const TOTAL_STEPS: usize = 9;

/// Which step the wizard is on, and whether the banner was shown.
pub struct Screen {
    pub step: usize,
    pub banner_shown: bool,
}

pub open spec fn banner_text() -> Seq<char> {
    "╔══════════════════════════════════════════╗\n║           Z A I N I U M   O S             ║\n║              carve · installer            ║\n╚══════════════════════════════════════════╝\n\n"@
}

pub open spec fn rule_line() -> Seq<char> {
    Seq::new(46, |i: int| '─')
}

/// What a step header prints: the banner the first time, then the
/// breadcrumb and a rule.
pub open spec fn header_text(shown: bool, step: nat, title: Seq<char>) -> Seq<char> {
    (if shown {
        Seq::<char>::empty()
    } else {
        banner_text()
    }) + "carve · Step "@ + dec(step) + "/9 · "@ + title + "\n"@ + rule_line() + "\n\n"@
}

impl Screen {
    pub fn new() -> (s: Screen)
        ensures
            s.step == 0,
            !s.banner_shown,
    {
        Screen { step: 0, banner_shown: false }
    }

    /// Advances to the next step and returns its header text: one full
    /// banner on the first screen, a compact breadcrumb on every screen.
    pub fn header(&mut self, title: &str) -> (r: String)
        requires
            old(self).step < usize::MAX,
        ensures
            final(self).step == old(self).step + 1,
            final(self).banner_shown,
            r@ == header_text(old(self).banner_shown, final(self).step as nat, title@),
    {
        self.step = self.step + 1;
        let mut v: Vec<char> = Vec::new();
        if !self.banner_shown {
            extend_str(&mut v, "╔══════════════════════════════════════════╗\n║           Z A I N I U M   O S             ║\n║              carve · installer            ║\n╚══════════════════════════════════════════╝\n\n");
            self.banner_shown = true;
        }
        extend_str(&mut v, "carve · Step ");
        push_dec(&mut v, self.step as u128);
        extend_str(&mut v, "/9 · ");
        extend_str(&mut v, title);
        extend_str(&mut v, "\n");
        let mut k: usize = 0;
        let ghost before_rule = v@;
        while k < 46
            invariant
                k <= 46,
                v@ == before_rule + Seq::new(k as nat, |i: int| '─'),
            decreases 46 - k,
        {
            v.push('─');
            k += 1;
            assert(v@ =~= before_rule + Seq::new(k as nat, |i: int| '─'));
        }
        extend_str(&mut v, "\n\n");
        assert(v@ =~= header_text(old(self).banner_shown, self.step as nat, title@));
        from_chars(&v)
    }
}

/// Layout codes from xkeyboard-config's `rules/base.lst`: the first word of
/// every line inside the `! layout` section.
pub open spec fn xkb_layouts_spec(ls: Seq<Seq<char>>, in_layouts: bool) -> Seq<Seq<char>>
    decreases ls.len(),
{
    if ls.len() == 0 {
        Seq::empty()
    } else {
        let t = trim(ls[0]);
        if t.len() > 0 && t[0] == '!' {
            xkb_layouts_spec(ls.drop_first(), trim(t.drop_first()) == "layout"@)
        } else {
            (if in_layouts && words(t).len() > 0 {
                seq![words(t)[0]]
            } else {
                Seq::<Seq<char>>::empty()
            }) + xkb_layouts_spec(ls.drop_first(), in_layouts)
        }
    }
}

/// The layout codes listed in `base.lst` text.
pub fn parse_xkb_layouts(text: &str) -> (r: Vec<String>)
    ensures
        strings_view(r@) == xkb_layouts_spec(lines(text@), false),
{
    let c = to_chars(text);
    let ls = lines_exec(&c);
    let layout = to_chars("layout");
    let mut out: Vec<String> = Vec::new();
    let mut in_layouts = false;
    let mut i: usize = 0;
    assert(seqs_of(ls@).skip(0) == seqs_of(ls@));
    while i < ls.len()
        invariant
            i <= ls@.len(),
            layout@ == "layout"@,
            strings_view(out@) + xkb_layouts_spec(seqs_of(ls@).skip(i as int), in_layouts)
                == xkb_layouts_spec(lines(text@), false),
        decreases ls.len() - i,
    {
        let ghost rest = seqs_of(ls@).skip(i as int);
        assert(rest[0] == ls@[i as int]@);
        assert(rest.drop_first() == seqs_of(ls@).skip(i + 1));
        let t = trim_exec(&ls[i]);
        let ghost old_out = strings_view(out@);
        if t.len() > 0 && t[0] == '!' {
            let mut tail: Vec<char> = Vec::new();
            let mut j: usize = 1;
            while j < t.len()
                invariant
                    1 <= j <= t@.len(),
                    tail@ == t@.subrange(1, j as int),
                decreases t.len() - j,
            {
                tail.push(t[j]);
                j += 1;
                assert(tail@ == t@.subrange(1, j as int));
            }
            assert(tail@ == t@.drop_first());
            let section = trim_exec(&tail);
            in_layouts = chars_eq(&section, &layout);
        } else {
            if in_layouts {
                let w = words_exec(&t);
                if w.len() > 0 {
                    let first = from_chars(&w[0]);
                    assert(first@ == seqs_of(w@)[0]);
                    out.push(first);
                    assert(strings_view(out@) =~= old_out.push(words(t@)[0]));
                } else {
                    assert(strings_view(out@) =~= old_out);
                }
            }
            assert(strings_view(out@) + xkb_layouts_spec(seqs_of(ls@).skip(i + 1), in_layouts)
                =~= old_out + xkb_layouts_spec(rest, in_layouts));
        }
        i += 1;
    }
    assert(xkb_layouts_spec(seqs_of(ls@).skip(i as int), in_layouts) == Seq::<Seq<char>>::empty());
    assert(strings_view(out@) + Seq::<Seq<char>>::empty() == strings_view(out@));
    out
}

/// What the wizard makes of a password and its confirmation.
#[derive(Clone, Copy, Debug, PartialEq, Eq, Structural)]
pub enum PasswordEntry {
    /// Under 4 bytes: asked again.
    TooShort,
    /// The confirmation differs: asked again.
    Mismatch,
    Accepted,
}

/// Whether a password is long enough to be confirmed (at least 4 bytes).
pub fn password_long_enough(pw: &str) -> (r: bool)
    ensures
        r == (utf8_len(pw@) >= 4),
{
    crate::model::install_plan::utf8_len_at_least(pw, 4)
}

pub fn check_password_entry(pw1: &str, pw2: &str) -> (r: PasswordEntry)
    ensures
        r == (if utf8_len(pw1@) < 4 {
            PasswordEntry::TooShort
        } else if pw1@ != pw2@ {
            PasswordEntry::Mismatch
        } else {
            PasswordEntry::Accepted
        }),
{
    if !password_long_enough(pw1) {
        PasswordEntry::TooShort
    } else if !str_eq(pw1, pw2) {
        PasswordEntry::Mismatch
    } else {
        PasswordEntry::Accepted
    }
}

/// Zones excluded from the city list by policy.
pub open spec fn excluded_city(c: Seq<char>) -> bool {
    c == "Jerusalem"@ || c == "Tel_Aviv"@
}

pub open spec fn city_choices_spec(cities: Seq<Seq<char>>) -> Seq<Seq<char>>
    decreases cities.len(),
{
    if cities.len() == 0 {
        Seq::empty()
    } else {
        city_choices_spec(cities.drop_last()) + if excluded_city(cities.last()) {
            Seq::<Seq<char>>::empty()
        } else {
            seq![cities.last()]
        }
    }
}

/// The cities the timezone step offers for a region, in order.
pub fn city_choices(cities: &Vec<String>) -> (r: Vec<String>)
    ensures
        strings_view(r@) == city_choices_spec(strings_view(cities@)),
{
    let mut out: Vec<String> = Vec::new();
    let mut i: usize = 0;
    assert(strings_view(cities@).take(0) =~= Seq::<Seq<char>>::empty());
    assert(strings_view(out@) =~= Seq::<Seq<char>>::empty());
    while i < cities.len()
        invariant
            i <= cities@.len(),
            strings_view(out@) == city_choices_spec(strings_view(cities@).take(i as int)),
        decreases cities.len() - i,
    {
        let ghost pre = strings_view(cities@).take(i as int);
        assert(strings_view(cities@).take(i + 1).drop_last() == pre);
        assert(strings_view(cities@).take(i + 1).last() == cities@[i as int]@);
        let ghost old_out = strings_view(out@);
        let c = cities[i].as_str();
        if !(str_eq(c, "Jerusalem") || str_eq(c, "Tel_Aviv")) {
            let s = cities[i].clone();
            out.push(s);
            assert(strings_view(out@) =~= old_out.push(cities@[i as int]@));
        } else {
            assert(strings_view(out@) =~= old_out);
        }
        i += 1;
    }
    assert(strings_view(cities@).take(i as int) == strings_view(cities@));
    out
}

/// A real install goes ahead only when `ERASE` was typed (surrounding
/// whitespace ignored).
pub fn is_erase_confirmation(typed: &str) -> (r: bool)
    ensures
        r == (trim(typed@) == "ERASE"@),
{
    let t = trim_exec(&to_chars(typed));
    chars_eq(&t, &to_chars("ERASE"))
}

} // verus!
