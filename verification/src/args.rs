//! The arguments of the program: as they were given, and the settings among
//! them by name.

use crate::text::{chars_of, has_prefix, str_eq, string_of};
use vstd::prelude::*;

verus! {

/// A setting, as plain values.
pub struct SettingView {
    pub key: Seq<char>,
    pub value: Seq<char>,
}

/// A named setting: an argument of the form `--key=value`, or `--key` with
/// an empty value.
pub struct Setting {
    pub key: String,
    pub value: String,
}

impl View for Setting {
    type V = SettingView;

    open spec fn view(&self) -> SettingView {
        SettingView { key: self.key@, value: self.value@ }
    }
}

/// The views of a table of settings.
pub open spec fn settings(table: Seq<Setting>) -> Seq<SettingView> {
    Seq::new(table.len(), |i: int| table[i]@)
}

/// The position of the first setting of `table` named `key`; the length of
/// the table if there is none.
pub open spec fn setting_index(table: Seq<SettingView>, key: Seq<char>) -> int
    decreases table.len(),
{
    if table.len() == 0 {
        0
    } else if table[0].key == key {
        0
    } else {
        1 + setting_index(table.drop_first(), key)
    }
}

/// The value that `table` holds under `key`, if it holds one.
pub open spec fn setting_value(table: Seq<SettingView>, key: Seq<char>) -> Option<Seq<char>> {
    let at = setting_index(table, key);
    if at < table.len() {
        Some(table[at].value)
    } else {
        None
    }
}

/// The table after `key` has been set to `value`: the setting of that name
/// gets the new value, or a new setting is added at the end.
pub open spec fn with_setting(table: Seq<SettingView>, key: Seq<char>, value: Seq<char>) -> Seq<
    SettingView,
> {
    let at = setting_index(table, key);
    if at < table.len() {
        table.update(at, SettingView { key, value })
    } else {
        table.push(SettingView { key, value })
    }
}

/// [`setting_index`] gives a position at which `key` stands, before which
/// it does not stand; or the length of the table, in which `key` then does
/// not stand at all.
pub proof fn lemma_setting_index(table: Seq<SettingView>, key: Seq<char>)
    ensures
        0 <= setting_index(table, key) <= table.len(),
        setting_index(table, key) < table.len() ==> table[setting_index(table, key)].key == key,
        forall|i: int| 0 <= i < setting_index(table, key) ==> (#[trigger] table[i]).key != key,
    decreases table.len(),
{
    if table.len() > 0 && table[0].key != key {
        let rest = table.drop_first();
        lemma_setting_index(rest, key);
        assert forall|i: int| 0 <= i < setting_index(table, key) implies (#[trigger] table[i]).key
            != key by {
            if i > 0 {
                assert(rest[i - 1] == table[i]);
            }
        }
    }
}

/// A position at which `key` stands and before which it does not stand is
/// the one that [`setting_index`] gives.
pub proof fn lemma_setting_index_is(table: Seq<SettingView>, key: Seq<char>, at: int)
    requires
        0 <= at <= table.len(),
        at < table.len() ==> table[at].key == key,
        forall|i: int| 0 <= i < at ==> (#[trigger] table[i]).key != key,
    ensures
        setting_index(table, key) == at,
{
    lemma_setting_index(table, key);
    let found = setting_index(table, key);
    if found < at {
        assert(table[found].key == key);
    }
}

/// A value that has just been set is the one that is found.
pub proof fn lemma_set_then_get(table: Seq<SettingView>, key: Seq<char>, value: Seq<char>)
    ensures
        setting_value(with_setting(table, key, value), key) == Some(value),
{
    lemma_setting_index(table, key);
    let at = setting_index(table, key);
    let after = with_setting(table, key, value);
    assert forall|i: int| 0 <= i < at implies (#[trigger] after[i]).key != key by {
        assert(after[i] == table[i]);
    }
    lemma_setting_index_is(after, key, at);
}

/// Finds the position of the setting named `key`.
fn find_setting(table: &Vec<Setting>, key: &str) -> (at: usize)
    ensures
        at == setting_index(settings(table@), key@),
        at <= table.len(),
{
    let ghost all = settings(table@);
    let mut i: usize = 0;
    while i < table.len()
        invariant
            i <= table.len(),
            all == settings(table@),
            forall|k: int| 0 <= k < i ==> (#[trigger] all[k]).key != key@,
        decreases table.len() - i,
    {
        assert(all[i as int] == table@[i as int]@);
        if str_eq(table[i].key.as_str(), key) {
            proof {
                lemma_setting_index_is(all, key@, i as int);
            }
            return i;
        }
        i += 1;
    }
    proof {
        lemma_setting_index_is(all, key@, all.len() as int);
    }
    i
}

/// Sets `key` to `value` in `table`.
pub fn put_setting(table: &mut Vec<Setting>, key: String, value: String)
    ensures
        settings(final(table)@) == with_setting(settings(old(table)@), key@, value@),
{
    let at = find_setting(table, key.as_str());
    if at < table.len() {
        table.remove(at);
        table.insert(at, Setting { key, value });
    } else {
        table.push(Setting { key, value });
    }
    proof {
        assert(settings(table@) =~= with_setting(settings(old(table)@), key@, value@));
    }
}

/// The text without the pairs of hyphens at its start.
pub open spec fn without_leading_hyphens(s: Seq<char>) -> Seq<char>
    decreases s.len(),
{
    if s.len() >= 2 && s[0] == '-' && s[1] == '-' {
        without_leading_hyphens(s.skip(2))
    } else {
        s
    }
}

/// The position of the first `=` of `s`; the length of `s` if it has none.
pub open spec fn equals_index(s: Seq<char>) -> int
    decreases s.len(),
{
    if s.len() == 0 || s[0] == '=' {
        0
    } else {
        1 + equals_index(s.drop_first())
    }
}

/// The name of the setting that the argument `arg` gives: what stands
/// before its first `=`, without the pairs of hyphens at the start.
pub open spec fn setting_key(arg: Seq<char>) -> Seq<char> {
    without_leading_hyphens(arg.take(equals_index(arg)))
}

/// The value of the setting that the argument `arg` gives: what stands
/// after its first `=`, and nothing if it has none.
pub open spec fn setting_text(arg: Seq<char>) -> Seq<char> {
    if equals_index(arg) < arg.len() {
        arg.skip(equals_index(arg) + 1)
    } else {
        Seq::<char>::empty()
    }
}

/// The position of the first `=` lies inside the text or at its end, and no
/// `=` stands before it.
pub proof fn lemma_equals_index(s: Seq<char>)
    ensures
        0 <= equals_index(s) <= s.len(),
        equals_index(s) < s.len() ==> s[equals_index(s)] == '=',
        forall|i: int| 0 <= i < equals_index(s) ==> s[i] != '=',
    decreases s.len(),
{
    if s.len() > 0 && s[0] != '=' {
        let rest = s.drop_first();
        lemma_equals_index(rest);
        assert forall|i: int| 0 <= i < equals_index(s) implies s[i] != '=' by {
            if i > 0 {
                assert(rest[i - 1] == s[i]);
            }
        }
    }
}

/// A position at which `=` stands, or the end, before which no `=` stands,
/// is the one that [`equals_index`] gives.
pub proof fn lemma_equals_index_is(s: Seq<char>, at: int)
    requires
        0 <= at <= s.len(),
        at < s.len() ==> s[at] == '=',
        forall|i: int| 0 <= i < at ==> s[i] != '=',
    ensures
        equals_index(s) == at,
{
    lemma_equals_index(s);
}

/// The settings that the arguments give: one for each argument that starts
/// with two hyphens. Where a name comes twice, the later value stands.
pub open spec fn settings_of(args: Seq<String>) -> Seq<SettingView>
    decreases args.len(),
{
    if args.len() == 0 {
        Seq::<SettingView>::empty()
    } else if "--"@.is_prefix_of(args.last()@) {
        with_setting(
            settings_of(args.drop_last()),
            setting_key(args.last()@),
            setting_text(args.last()@),
        )
    } else {
        settings_of(args.drop_last())
    }
}

/// The arguments in one line, a blank between two of them.
pub open spec fn spaced(args: Seq<String>) -> Seq<char>
    decreases args.len(),
{
    if args.len() == 0 {
        Seq::<char>::empty()
    } else if args.len() == 1 {
        args[0]@
    } else {
        spaced(args.drop_last()) + seq![' '] + args.last()@
    }
}

/// The arguments of the program.
pub struct Args {
    /// The arguments in one line.
    pub raw: String,
    /// The first argument, or nothing if there is none.
    pub command: String,
    /// The arguments as they were given.
    pub array: Vec<String>,
    /// The settings among the arguments. No name stands twice.
    pub tabled: Vec<Setting>,
}

impl Args {
    /// Whether the parts of the value belong to the arguments it holds.
    pub open spec fn wf(&self) -> bool {
        &&& self.raw@ == spaced(self.array@)
        &&& self.command@ == if self.array@.len() > 0 {
            self.array@[0]@
        } else {
            Seq::<char>::empty()
        }
        &&& settings(self.tabled@) == settings_of(self.array@)
    }

    /// Whether a setting named `key` was given.
    pub fn contains_key(&self, key: &str) -> (found: bool)
        ensures
            found == setting_value(settings(self.tabled@), key@) is Some,
    {
        find_setting(&self.tabled, key) < self.tabled.len()
    }

    /// The value of the setting named `key`, if it was given.
    pub fn get(&self, key: &str) -> (value: Option<&str>)
        ensures
            match value {
                Some(text) => setting_value(settings(self.tabled@), key@) == Some(text@),
                None => setting_value(settings(self.tabled@), key@) is None,
            },
    {
        let at = find_setting(&self.tabled, key);
        if at < self.tabled.len() {
            assert(settings(self.tabled@)[at as int] == self.tabled@[at as int]@);
            Some(self.tabled[at].value.as_str())
        } else {
            None
        }
    }
}

/// Cuts the pairs of hyphens off the start of `cs`.
fn strip_hyphens(cs: &[char]) -> (out: Vec<char>)
    ensures
        out@ == without_leading_hyphens(cs@),
{
    let mut start: usize = 0;
    proof {
        assert(cs@.skip(0) =~= cs@);
    }
    while cs.len() - start >= 2 && cs[start] == '-' && cs[start + 1] == '-'
        invariant
            start <= cs.len(),
            without_leading_hyphens(cs@) == without_leading_hyphens(cs@.skip(start as int)),
        decreases cs.len() - start,
    {
        proof {
            assert(cs@.skip(start as int).skip(2) =~= cs@.skip(start + 2));
        }
        start += 2;
    }
    let mut out: Vec<char> = Vec::new();
    let mut i: usize = start;
    while i < cs.len()
        invariant
            start <= i <= cs.len(),
            out@ == cs@.subrange(start as int, i as int),
        decreases cs.len() - i,
    {
        out.push(cs[i]);
        proof {
            assert(cs@.subrange(start as int, i + 1) =~= cs@.subrange(start as int, i as int).push(
                cs@[i as int],
            ));
        }
        i += 1;
    }
    proof {
        assert(cs@.subrange(start as int, cs@.len() as int) =~= cs@.skip(start as int));
    }
    out
}

/// Reads the setting that an argument gives.
pub fn read_setting(arg: &str) -> (setting: Setting)
    ensures
        setting@.key == setting_key(arg@),
        setting@.value == setting_text(arg@),
{
    let cs = chars_of(arg);
    let mut at: usize = 0;
    while at < cs.len() && cs[at] != '='
        invariant
            at <= cs.len(),
            cs@ == arg@,
            forall|k: int| 0 <= k < at ==> cs@[k] != '=',
        decreases cs.len() - at,
    {
        at += 1;
    }
    proof {
        lemma_equals_index_is(arg@, at as int);
    }
    let mut name: Vec<char> = Vec::new();
    let mut i: usize = 0;
    while i < at
        invariant
            i <= at <= cs.len(),
            name@ == cs@.take(i as int),
        decreases at - i,
    {
        name.push(cs[i]);
        proof {
            assert(cs@.take(i + 1) =~= cs@.take(i as int).push(cs@[i as int]));
        }
        i += 1;
    }
    let mut value: Vec<char> = Vec::new();
    if at < cs.len() {
        let mut j: usize = at + 1;
        while j < cs.len()
            invariant
                at + 1 <= j <= cs.len(),
                value@ == cs@.subrange(at + 1, j as int),
            decreases cs.len() - j,
        {
            value.push(cs[j]);
            proof {
                assert(cs@.subrange(at + 1, j + 1) =~= cs@.subrange(at + 1, j as int).push(
                    cs@[j as int],
                ));
            }
            j += 1;
        }
        proof {
            assert(cs@.subrange(at + 1, cs@.len() as int) =~= cs@.skip(at + 1));
        }
    }
    let key = strip_hyphens(name.as_slice());
    Setting { key: string_of(key.as_slice()), value: string_of(value.as_slice()) }
}

/// Puts the arguments of the program, the name of the program left out,
/// into their parts.
pub fn parse_args(args: Vec<String>) -> (parsed: Args)
    ensures
        parsed.array@ == args@,
        parsed.wf(),
{
    let mut tabled: Vec<Setting> = Vec::new();
    let mut raw = String::new();
    let two_hyphens = chars_of("--");
    let mut i: usize = 0;
    proof {
        assert(settings(tabled@) =~= settings_of(args@.take(0)));
        assert(args@.take(0).len() == 0);
    }
    while i < args.len()
        invariant
            i <= args.len(),
            two_hyphens@ == "--"@,
            settings(tabled@) == settings_of(args@.take(i as int)),
            raw@ == spaced(args@.take(i as int)),
        decreases args.len() - i,
    {
        proof {
            assert(args@.take(i + 1).drop_last() =~= args@.take(i as int));
            assert(args@.take(i + 1).last() == args@[i as int]);
        }
        let arg = &args[i];
        if i > 0 {
            raw.push(' ');
        }
        raw.append(arg.as_str());
        proof {
            if i == 0 {
                assert(raw@ =~= args@[0]@);
                assert(args@.take(1)[0] == args@[0]);
            }
        }
        let arg_chars = chars_of(arg.as_str());
        if has_prefix(arg_chars.as_slice(), two_hyphens.as_slice()) {
            let setting = read_setting(arg.as_str());
            put_setting(&mut tabled, setting.key, setting.value);
        }
        i += 1;
    }
    proof {
        assert(args@.take(args@.len() as int) =~= args@);
    }
    let command = if args.len() > 0 {
        args[0].clone()
    } else {
        String::new()
    };
    Args { raw, command, array: args, tabled }
}

} // verus!
