//! Look-alike domain names: the ways of misspelling a name, one function
//! for each.

use crate::sorted::{insert_sorted, rows, strictly_sorted};
use crate::text::{
    chars_of, contains_char, copy_chars, has_prefix, joined, replace_char, replaced,
    slice_texts, str_eq, string_of, texts,
};
use vstd::prelude::*;
use vstd::utf8::is_ascii_chars;

verus! {

/// The position of the last dot of `s`, if it has one.
pub open spec fn last_dot(s: Seq<char>) -> Option<int>
    decreases s.len(),
{
    if s.len() == 0 {
        None
    } else if s.last() == '.' {
        Some(s.len() - 1)
    } else {
        last_dot(s.drop_last())
    }
}

/// What stands before the last dot of a domain name; the whole name if it
/// has no dot.
pub open spec fn domain_base(domain: Seq<char>) -> Seq<char> {
    match last_dot(domain) {
        Some(dot) => domain.take(dot),
        None => domain,
    }
}

/// What stands after the last dot of a domain name; nothing if it has no
/// dot.
pub open spec fn domain_tld(domain: Seq<char>) -> Seq<char> {
    match last_dot(domain) {
        Some(dot) => domain.skip(dot + 1),
        None => Seq::<char>::empty(),
    }
}

/// [`last_dot`] gives the position of a dot after which no dot follows, and
/// `None` exactly for a text without a dot.
pub proof fn lemma_last_dot(s: Seq<char>)
    ensures
        match last_dot(s) {
            Some(dot) => {
                &&& 0 <= dot < s.len()
                &&& s[dot] == '.'
                &&& forall|k: int| dot < k < s.len() ==> s[k] != '.'
            },
            None => !s.contains('.'),
        },
    decreases s.len(),
{
    if s.len() > 0 && s.last() != '.' {
        lemma_last_dot(s.drop_last());
        match last_dot(s.drop_last()) {
            Some(dot) => {
                assert forall|k: int| dot < k < s.len() implies s[k] != '.' by {
                    if k < s.len() - 1 {
                        assert(s.drop_last()[k] == s[k]);
                    }
                }
                assert(s.drop_last()[dot] == s[dot]);
            },
            None => {
                if s.contains('.') {
                    let k = choose|k: int| 0 <= k < s.len() && s[k] == '.';
                    assert(s.drop_last()[k] == '.');
                    assert(s.drop_last().contains('.'));
                }
            },
        }
    }
}

/// Splits a domain name at its last dot into base and top-level domain.
/// A name without a dot is all base.
pub fn split_domain(domain: &str) -> (parts: (&str, &str))
    ensures
        parts.0@ == domain_base(domain@),
        parts.1@ == domain_tld(domain@),
{
    let cs = chars_of(domain);
    let n = cs.len();
    let mut i: usize = n;
    proof {
        assert(domain@.take(n as int) =~= domain@);
    }
    while i > 0
        invariant
            i <= n,
            n == cs@.len(),
            cs@ == domain@,
            last_dot(domain@) == last_dot(domain@.take(i as int)),
        decreases i,
    {
        proof {
            assert(domain@.take(i as int).drop_last() =~= domain@.take(i - 1));
        }
        if cs[i - 1] == '.' {
            return (domain.substring_char(0, i - 1), domain.substring_char(i, n));
        }
        i -= 1;
    }
    proof {
        assert(domain@.take(0).len() == 0);
        reveal_strlit("");
        assert(""@ =~= Seq::<char>::empty());
    }
    (domain, "")
}

/// The texts that leave out one character of `s`, from the first to the
/// last.
pub open spec fn omissions(s: Seq<char>) -> Seq<Seq<char>> {
    Seq::new(s.len(), |i: int| s.remove(i))
}

/// Every way of leaving out one character of `s`. Places are counted in
/// bytes, so `s` has to be ASCII.
pub fn omission(s: &str) -> (typos: Vec<String>)
    requires
        is_ascii_chars(s@),
    ensures
        texts(typos@) == omissions(s@),
{
    let cs = chars_of(s);
    let mut typos: Vec<String> = Vec::new();
    let mut i: usize = 0;
    while i < cs.len()
        invariant
            i <= cs.len(),
            cs@ == s@,
            typos@.len() == i,
            forall|k: int| 0 <= k < i ==> (#[trigger] typos@[k])@ == s@.remove(k),
        decreases cs.len() - i,
    {
        let mut c = copy_chars(cs.as_slice());
        c.remove(i);
        typos.push(string_of(c.as_slice()));
        i += 1;
    }
    proof {
        assert(texts(typos@) =~= omissions(s@));
    }
    typos
}

/// The text `s` with the characters at `i` and `j` exchanged.
pub open spec fn swapped(s: Seq<char>, i: int, j: int) -> Seq<char> {
    s.update(i, s[j]).update(j, s[i])
}

/// The texts that exchange two neighbouring characters of `s`.
pub open spec fn permutations(s: Seq<char>) -> Seq<Seq<char>> {
    Seq::new((s.len() - 1) as nat, |i: int| swapped(s, i, i + 1))
}

/// Every way of exchanging two neighbouring characters of `s`, which must
/// not be empty.
pub fn permutation(s: &str) -> (typos: Vec<String>)
    requires
        s@.len() >= 1,
    ensures
        texts(typos@) == permutations(s@),
{
    let cs = chars_of(s);
    let mut typos: Vec<String> = Vec::new();
    let mut i: usize = 0;
    while i < cs.len() - 1
        invariant
            cs.len() >= 1,
            i <= cs.len() - 1,
            cs@ == s@,
            typos@.len() == i,
            forall|k: int| 0 <= k < i ==> (#[trigger] typos@[k])@ == swapped(s@, k, k + 1),
        decreases cs.len() - i,
    {
        let mut c = copy_chars(cs.as_slice());
        let left = c[i];
        let right = c[i + 1];
        c.set(i, right);
        c.set(i + 1, left);
        typos.push(string_of(c.as_slice()));
        i += 1;
    }
    proof {
        assert(texts(typos@) =~= permutations(s@));
    }
    typos
}

/// The keys that are easily hit in place of `c`.
pub open spec fn neighbors(c: char) -> Seq<char> {
    if c == 'a' {
        seq!['q', 's', 'z']
    } else if c == 'e' {
        seq!['w', 'r', 'd']
    } else if c == 'o' {
        seq!['i', 'p', 'l']
    } else if c == 'm' {
        seq!['n', 'j', 'k']
    } else {
        Seq::<char>::empty()
    }
}

/// The texts that put a neighbouring key in place of the character at `i`.
pub open spec fn substitutions_at(s: Seq<char>, i: int) -> Seq<Seq<char>> {
    Seq::new(neighbors(s[i]).len(), |k: int| s.update(i, neighbors(s[i])[k]))
}

/// The texts that put a neighbouring key in place of one of the first `n`
/// characters of `s`, in the order of the characters.
pub open spec fn substitutions_before(s: Seq<char>, n: nat) -> Seq<Seq<char>>
    decreases n,
{
    if n == 0 {
        Seq::<Seq<char>>::empty()
    } else {
        substitutions_before(s, (n - 1) as nat) + substitutions_at(s, n - 1)
    }
}

/// The texts that put a neighbouring key in place of one character of `s`.
pub open spec fn substitutions(s: Seq<char>) -> Seq<Seq<char>> {
    substitutions_before(s, s.len())
}

/// Executable form of [`neighbors`].
pub fn neighbor_keys(c: char) -> (keys: Vec<char>)
    ensures
        keys@ == neighbors(c),
{
    let mut keys: Vec<char> = Vec::new();
    if c == 'a' {
        keys.push('q');
        keys.push('s');
        keys.push('z');
    } else if c == 'e' {
        keys.push('w');
        keys.push('r');
        keys.push('d');
    } else if c == 'o' {
        keys.push('i');
        keys.push('p');
        keys.push('l');
    } else if c == 'm' {
        keys.push('n');
        keys.push('j');
        keys.push('k');
    }
    proof {
        assert(keys@ =~= neighbors(c));
    }
    keys
}

/// Every way of hitting a neighbouring key in place of one character of
/// `s`.
pub fn substitution(s: &str) -> (typos: Vec<String>)
    ensures
        texts(typos@) == substitutions(s@),
{
    let cs = chars_of(s);
    let mut typos: Vec<String> = Vec::new();
    let mut i: usize = 0;
    while i < cs.len()
        invariant
            i <= cs.len(),
            cs@ == s@,
            texts(typos@) == substitutions_before(s@, i as nat),
        decreases cs.len() - i,
    {
        let keys = neighbor_keys(cs[i]);
        let ghost done = typos@;
        let mut k: usize = 0;
        while k < keys.len()
            invariant
                i < cs.len(),
                k <= keys.len(),
                cs@ == s@,
                keys@ == neighbors(s@[i as int]),
                typos@.len() == done.len() + k,
                forall|j: int| 0 <= j < done.len() ==> typos@[j] == done[j],
                forall|j: int|
                    done.len() <= j < done.len() + k ==> (#[trigger] typos@[j])@ == s@.update(
                        i as int,
                        keys@[j - done.len()],
                    ),
            decreases keys.len() - k,
        {
            let mut c = copy_chars(cs.as_slice());
            c.set(i, keys[k]);
            typos.push(string_of(c.as_slice()));
            k += 1;
        }
        proof {
            assert(texts(typos@) =~= texts(done) + substitutions_at(s@, i as int));
        }
        i += 1;
    }
    typos
}

/// The texts that double one character of `s`.
pub open spec fn repetitions(s: Seq<char>) -> Seq<Seq<char>> {
    Seq::new(s.len(), |i: int| s.insert(i, s[i]))
}

/// Every way of typing one character of `s` twice.
pub fn repetition(s: &str) -> (typos: Vec<String>)
    ensures
        texts(typos@) == repetitions(s@),
{
    let cs = chars_of(s);
    let mut typos: Vec<String> = Vec::new();
    let mut i: usize = 0;
    while i < cs.len()
        invariant
            i <= cs.len(),
            cs@ == s@,
            typos@.len() == i,
            forall|k: int| 0 <= k < i ==> (#[trigger] typos@[k])@ == s@.insert(k, s@[k]),
        decreases cs.len() - i,
    {
        let mut c = copy_chars(cs.as_slice());
        c.insert(i, cs[i]);
        typos.push(string_of(c.as_slice()));
        i += 1;
    }
    proof {
        assert(texts(typos@) =~= repetitions(s@));
    }
    typos
}

/// The prefix whose dot is left out.
pub const WWW_DOT: &'static str = "www.";

/// The name without the dot after a leading `www`, for a name that starts
/// with `www.`; nothing for any other name.
pub open spec fn missing_dots(domain: Seq<char>) -> Seq<Seq<char>> {
    if WWW_DOT@.is_prefix_of(domain) {
        seq!["www"@ + domain.skip(4)]
    } else {
        Seq::<Seq<char>>::empty()
    }
}

/// The name a user types who forgets the dot after `www`.
pub fn missing_dot(domain: &str) -> (typos: Vec<String>)
    ensures
        texts(typos@) == missing_dots(domain@),
{
    let cs = chars_of(domain);
    let prefix = chars_of(WWW_DOT);
    let mut typos: Vec<String> = Vec::new();
    proof {
        reveal_strlit("www.");
    }
    if has_prefix(cs.as_slice(), prefix.as_slice()) {
        let rest = domain.substring_char(4, cs.len());
        typos.push(joined("www", rest));
    }
    proof {
        assert(texts(typos@) =~= missing_dots(domain@));
    }
    typos
}

/// The look-alike of `s` that writes `to` for every `from`, if `s` holds a
/// `from`.
pub open spec fn glyph_swap(s: Seq<char>, from: char, to: char) -> Seq<Seq<char>> {
    if s.contains(from) {
        seq![replaced(s, from, to)]
    } else {
        Seq::<Seq<char>>::empty()
    }
}

/// The look-alikes of `s` that write a digit for a letter: `0` for `o`,
/// `1` for `i`, `3` for `e`, `1` for `l`, `5` for `s`, one text for each
/// letter that `s` holds.
pub open spec fn homoglyph_swaps(s: Seq<char>) -> Seq<Seq<char>> {
    glyph_swap(s, 'o', '0') + glyph_swap(s, 'i', '1') + glyph_swap(s, 'e', '3') + glyph_swap(
        s,
        'l',
        '1',
    ) + glyph_swap(s, 's', '5')
}

/// Appends to `typos` the look-alike of `cs` that writes `to` for `from`.
fn push_glyph_swap(typos: &mut Vec<String>, cs: &[char], from: char, to: char)
    ensures
        texts(final(typos)@) == texts(old(typos)@) + glyph_swap(cs@, from, to),
{
    if contains_char(cs, from) {
        let swapped = replace_char(cs, from, to);
        typos.push(string_of(swapped.as_slice()));
    }
    proof {
        assert(texts(typos@) =~= texts(old(typos)@) + glyph_swap(cs@, from, to));
    }
}

/// Every way of writing a look-alike digit for a letter of `s`.
pub fn homoglyphs(s: &str) -> (typos: Vec<String>)
    ensures
        texts(typos@) == homoglyph_swaps(s@),
{
    let cs = chars_of(s);
    let mut typos: Vec<String> = Vec::new();
    proof {
        assert(texts(typos@) =~= Seq::<Seq<char>>::empty());
    }
    push_glyph_swap(&mut typos, cs.as_slice(), 'o', '0');
    push_glyph_swap(&mut typos, cs.as_slice(), 'i', '1');
    push_glyph_swap(&mut typos, cs.as_slice(), 'e', '3');
    push_glyph_swap(&mut typos, cs.as_slice(), 'l', '1');
    push_glyph_swap(&mut typos, cs.as_slice(), 's', '5');
    proof {
        assert(texts(typos@) =~= homoglyph_swaps(s@));
    }
    typos
}

/// The texts that put an `x` into `s`: before each character, and at the
/// end.
pub open spec fn insertions(s: Seq<char>) -> Seq<Seq<char>> {
    Seq::new(s.len() + 1, |i: int| s.insert(i, 'x'))
}

/// Every way of slipping an `x` into `s`. Places are counted in bytes, so
/// `s` has to be ASCII.
pub fn insertion(s: &str) -> (typos: Vec<String>)
    requires
        is_ascii_chars(s@),
    ensures
        texts(typos@) == insertions(s@),
{
    let cs = chars_of(s);
    let mut typos: Vec<String> = Vec::new();
    let mut i: usize = 0;
    while i < cs.len()
        invariant
            i <= cs.len(),
            cs@ == s@,
            typos@.len() == i,
            forall|k: int| 0 <= k < i ==> (#[trigger] typos@[k])@ == s@.insert(k, 'x'),
        decreases cs.len() - i,
    {
        let mut c = copy_chars(cs.as_slice());
        c.insert(i, 'x');
        typos.push(string_of(c.as_slice()));
        i += 1;
    }
    let mut c = copy_chars(cs.as_slice());
    c.insert(i, 'x');
    typos.push(string_of(c.as_slice()));
    proof {
        assert(texts(typos@) =~= insertions(s@));
    }
    typos
}

/// The names that put `base` under each of six common top-level domains.
pub open spec fn tld_swaps(base: Seq<char>) -> Seq<Seq<char>> {
    seq![
        base + ".com"@,
        base + ".net"@,
        base + ".org"@,
        base + ".co"@,
        base + ".info"@,
        base + ".xyz"@,
    ]
}

/// `base` under each of six common top-level domains.
pub fn tld_swap(base: &str) -> (typos: Vec<String>)
    ensures
        texts(typos@) == tld_swaps(base@),
{
    let mut typos: Vec<String> = Vec::new();
    typos.push(joined(base, ".com"));
    typos.push(joined(base, ".net"));
    typos.push(joined(base, ".org"));
    typos.push(joined(base, ".co"));
    typos.push(joined(base, ".info"));
    typos.push(joined(base, ".xyz"));
    proof {
        assert(texts(typos@) =~= tld_swaps(base@));
    }
    typos
}

/// The texts that put a hyphen between two characters of `s`.
pub open spec fn hyphenations(s: Seq<char>) -> Seq<Seq<char>> {
    Seq::new(
        if s.len() == 0 {
            0nat
        } else {
            (s.len() - 1) as nat
        },
        |i: int| s.insert(i + 1, '-'),
    )
}

/// Every way of putting a hyphen between two characters of `s`. Places are
/// counted in bytes, so `s` has to be ASCII.
pub fn hyphenation(s: &str) -> (typos: Vec<String>)
    requires
        is_ascii_chars(s@),
    ensures
        texts(typos@) == hyphenations(s@),
{
    let cs = chars_of(s);
    let mut typos: Vec<String> = Vec::new();
    let mut i: usize = 1;
    while i < cs.len()
        invariant
            1 <= i,
            i <= cs.len() || i == 1,
            cs@ == s@,
            typos@.len() == i - 1,
            forall|k: int| 0 <= k < i - 1 ==> (#[trigger] typos@[k])@ == s@.insert(k + 1, '-'),
        decreases cs.len() - i,
    {
        let mut c = copy_chars(cs.as_slice());
        c.insert(i, '-');
        typos.push(string_of(c.as_slice()));
        i += 1;
    }
    proof {
        assert(hyphenations(s@).len() == typos@.len());
        assert forall|k: int| 0 <= k < typos@.len() implies texts(typos@)[k] == hyphenations(
            s@,
        )[k] by {
            assert(typos@[k]@ == s@.insert(k + 1, '-'));
        }
        assert(texts(typos@) =~= hyphenations(s@));
    }
    typos
}

/// The name as a subdomain of a foreign domain, and a login host under the
/// name.
pub open spec fn subdomain_attacks(domain: Seq<char>) -> Seq<Seq<char>> {
    seq![domain + ".attacker.com"@, "login."@ + domain]
}

/// The two names that hide `domain` in a longer one.
pub fn subdomain_attack(domain: &str) -> (typos: Vec<String>)
    ensures
        texts(typos@) == subdomain_attacks(domain@),
{
    let mut typos: Vec<String> = Vec::new();
    typos.push(joined(domain, ".attacker.com"));
    typos.push(joined("login.", domain));
    proof {
        assert(texts(typos@) =~= subdomain_attacks(domain@));
    }
    typos
}

/// The names that put a trusted word and a hyphen before `s`.
pub open spec fn combo_squats(s: Seq<char>) -> Seq<Seq<char>> {
    seq!["secure-"@ + s, "login-"@ + s, "support-"@ + s, "mail-"@ + s]
}

/// `s` behind each of four trusted words.
pub fn combo_squatting(s: &str) -> (typos: Vec<String>)
    ensures
        texts(typos@) == combo_squats(s@),
{
    let mut typos: Vec<String> = Vec::new();
    typos.push(joined("secure-", s));
    typos.push(joined("login-", s));
    typos.push(joined("support-", s));
    typos.push(joined("mail-", s));
    proof {
        assert(texts(typos@) =~= combo_squats(s@));
    }
    typos
}

/// The text with `n` for every `m`, and the text with `d` for every `b`:
/// letters one flipped bit apart.
pub open spec fn bit_squats(s: Seq<char>) -> Seq<Seq<char>> {
    seq![replaced(s, 'm', 'n'), replaced(s, 'b', 'd')]
}

/// The two texts that a flipped bit makes of `s`.
pub fn bitsquatting(s: &str) -> (typos: Vec<String>)
    ensures
        texts(typos@) == bit_squats(s@),
{
    let cs = chars_of(s);
    let mut typos: Vec<String> = Vec::new();
    let first = replace_char(cs.as_slice(), 'm', 'n');
    typos.push(string_of(first.as_slice()));
    let second = replace_char(cs.as_slice(), 'b', 'd');
    typos.push(string_of(second.as_slice()));
    proof {
        assert(texts(typos@) =~= bit_squats(s@));
    }
    typos
}

/// The Cyrillic letter that looks like a Latin `o`.
pub const CYRILLIC_O: char = '\u{43e}';

/// The text with the Cyrillic letter for every Latin `o`.
pub open spec fn unicode_abuses(s: Seq<char>) -> Seq<Seq<char>> {
    seq![replaced(s, 'o', CYRILLIC_O)]
}

/// The text that writes a Cyrillic letter for every `o` of `s`.
pub fn unicode_abuse(s: &str) -> (typos: Vec<String>)
    ensures
        texts(typos@) == unicode_abuses(s@),
{
    let cs = chars_of(s);
    let mut typos: Vec<String> = Vec::new();
    let swapped = replace_char(cs.as_slice(), 'o', CYRILLIC_O);
    typos.push(string_of(swapped.as_slice()));
    proof {
        assert(texts(typos@) =~= unicode_abuses(s@));
    }
    typos
}

/// The text `s` without its dots.
pub open spec fn without_dots(s: Seq<char>) -> Seq<char>
    decreases s.len(),
{
    if s.len() == 0 {
        s
    } else if s.last() == '.' {
        without_dots(s.drop_last())
    } else {
        without_dots(s.drop_last()).push(s.last())
    }
}

/// Executable form of [`without_dots`].
pub fn strip_dots(cs: &[char]) -> (out: Vec<char>)
    ensures
        out@ == without_dots(cs@),
{
    let mut out: Vec<char> = Vec::new();
    let mut i: usize = 0;
    while i < cs.len()
        invariant
            i <= cs.len(),
            out@ == without_dots(cs@.take(i as int)),
        decreases cs.len() - i,
    {
        proof {
            assert(cs@.take(i + 1).drop_last() =~= cs@.take(i as int));
        }
        if cs[i] != '.' {
            out.push(cs[i]);
        }
        i += 1;
    }
    proof {
        assert(cs@.take(cs@.len() as int) =~= cs@);
    }
    out
}

/// The part of a domain name that the misspellings work on: what stands
/// before the last dot, without its own dots.
pub open spec fn squat_base(domain: Seq<char>) -> Seq<char> {
    without_dots(domain_base(domain))
}

/// Whether the method named `method` can work on `base`. The three methods
/// that count in bytes need a base of ASCII characters, and exchanging
/// neighbours needs a base that is not empty.
pub open spec fn method_applies(method: Seq<char>, base: Seq<char>) -> bool {
    &&& (method == "omission"@ || method == "insertion"@ || method == "hyphenation"@)
        ==> is_ascii_chars(base)
    &&& method == "permutation"@ ==> base.len() >= 1
}

/// What the method named `method` makes of a domain name and its base. A
/// name that stands for no method makes nothing.
pub open spec fn method_typos(method: Seq<char>, domain: Seq<char>, base: Seq<char>) -> Seq<
    Seq<char>,
> {
    if method == "omission"@ {
        omissions(base)
    } else if method == "permutation"@ {
        permutations(base)
    } else if method == "substitution"@ {
        substitutions(base)
    } else if method == "repetition"@ {
        repetitions(base)
    } else if method == "missingdot"@ {
        missing_dots(domain)
    } else if method == "homoglyph"@ {
        homoglyph_swaps(base)
    } else if method == "insertion"@ {
        insertions(base)
    } else if method == "tldswap"@ {
        tld_swaps(base)
    } else if method == "hyphenation"@ {
        hyphenations(base)
    } else if method == "subdomain"@ {
        subdomain_attacks(domain)
    } else if method == "combo"@ {
        combo_squats(base)
    } else if method == "bitsquatting"@ {
        bit_squats(base)
    } else if method == "unicode"@ {
        unicode_abuses(base)
    } else {
        Seq::<Seq<char>>::empty()
    }
}

/// Whether the method named `method` can work on `base`.
pub fn method_can_run(method: &str, base: &str) -> (applies: bool)
    ensures
        applies == method_applies(method@, base@),
{
    proof {
        reveal_strlit("permutation");
        reveal_strlit("omission");
        reveal_strlit("insertion");
        reveal_strlit("hyphenation");
        assert("permutation"@[0] == 'p');
        assert("omission"@[0] == 'o');
        assert("insertion"@[0] == 'i');
        assert("hyphenation"@[0] == 'h');
    }
    if str_eq(method, "omission") || str_eq(method, "insertion") || str_eq(method, "hyphenation") {
        base.is_ascii()
    } else if str_eq(method, "permutation") {
        !base.is_empty()
    } else {
        true
    }
}

/// Runs the method named `method`.
pub fn run_method(method: &str, domain: &str, base: &str) -> (typos: Vec<String>)
    requires
        method_applies(method@, base@),
    ensures
        texts(typos@) == method_typos(method@, domain@, base@),
{
    if str_eq(method, "omission") {
        omission(base)
    } else if str_eq(method, "permutation") {
        permutation(base)
    } else if str_eq(method, "substitution") {
        substitution(base)
    } else if str_eq(method, "repetition") {
        repetition(base)
    } else if str_eq(method, "missingdot") {
        missing_dot(domain)
    } else if str_eq(method, "homoglyph") {
        homoglyphs(base)
    } else if str_eq(method, "insertion") {
        insertion(base)
    } else if str_eq(method, "tldswap") {
        tld_swap(base)
    } else if str_eq(method, "hyphenation") {
        hyphenation(base)
    } else if str_eq(method, "subdomain") {
        subdomain_attack(domain)
    } else if str_eq(method, "combo") {
        combo_squatting(base)
    } else if str_eq(method, "bitsquatting") {
        bitsquatting(base)
    } else if str_eq(method, "unicode") {
        unicode_abuse(base)
    } else {
        let typos: Vec<String> = Vec::new();
        proof {
            assert(texts(typos@) =~= Seq::<Seq<char>>::empty());
        }
        typos
    }
}

/// What the methods named in `methods` make of a domain name and its base,
/// method after method.
pub open spec fn generated(methods: Seq<Seq<char>>, domain: Seq<char>, base: Seq<char>) -> Seq<
    Seq<char>,
>
    decreases methods.len(),
{
    if methods.len() == 0 {
        Seq::<Seq<char>>::empty()
    } else {
        generated(methods.drop_last(), domain, base) + method_typos(methods.last(), domain, base)
    }
}

/// A misspelling as a domain name: as it is if it holds a dot, else under
/// the top-level domain `tld`.
pub open spec fn completed(typo: Seq<char>, tld: Seq<char>) -> Seq<char> {
    if typo.contains('.') {
        typo
    } else {
        typo + seq!['.'] + tld
    }
}

/// The misspellings `typos`, each as a domain name.
pub open spec fn completed_all(typos: Seq<Seq<char>>, tld: Seq<char>) -> Seq<Seq<char>> {
    Seq::new(typos.len(), |i: int| completed(typos[i], tld))
}

/// Every look-alike name that the methods named in `methods` make of
/// `domain`, in the order they are made and with repetitions.
pub open spec fn candidates(domain: Seq<char>, methods: Seq<Seq<char>>) -> Seq<Seq<char>> {
    completed_all(generated(methods, domain, squat_base(domain)), domain_tld(domain))
}

/// Whether every method named in `methods` can work on `domain`.
pub open spec fn methods_apply(domain: Seq<char>, methods: Seq<Seq<char>>) -> bool {
    forall|i: int|
        0 <= i < methods.len() ==> method_applies(#[trigger] methods[i], squat_base(domain))
}

/// The base of `domain` that the misspellings work on.
pub fn base_of(domain: &str) -> (base: String)
    ensures
        base@ == squat_base(domain@),
{
    let (head, _tld) = split_domain(domain);
    let head_chars = chars_of(head);
    let stripped = strip_dots(head_chars.as_slice());
    string_of(stripped.as_slice())
}

/// Whether every method named in `methods` can work on `domain`.
pub fn methods_can_run(domain: &str, methods: &[&str]) -> (apply: bool)
    ensures
        apply == methods_apply(domain@, slice_texts(methods@)),
{
    let base = base_of(domain);
    let ghost names = slice_texts(methods@);
    let mut i: usize = 0;
    while i < methods.len()
        invariant
            i <= methods.len(),
            base@ == squat_base(domain@),
            names == slice_texts(methods@),
            forall|k: int| 0 <= k < i ==> method_applies(#[trigger] names[k], base@),
        decreases methods.len() - i,
    {
        assert(names[i as int] == methods@[i as int]@);
        if !method_can_run(methods[i], base.as_str()) {
            return false;
        }
        i += 1;
    }
    true
}

/// A text is among the first `n + 1` of a list if it is among the first
/// `n` or is the one that follows them.
pub proof fn lemma_take_contains(list: Seq<Seq<char>>, n: int, t: Seq<char>)
    requires
        0 <= n < list.len(),
    ensures
        list.take(n + 1).contains(t) <==> (list.take(n).contains(t) || list[n] == t),
{
    let longer = list.take(n + 1);
    let shorter = list.take(n);
    if longer.contains(t) {
        let k = choose|k: int| 0 <= k < longer.len() && longer[k] == t;
        if k < n {
            assert(shorter[k] == t);
        }
    }
    if shorter.contains(t) {
        let k = choose|k: int| 0 <= k < shorter.len() && shorter[k] == t;
        assert(longer[k] == t);
    }
    if list[n] == t {
        assert(longer[n] == t);
    }
}

/// The look-alike names that the methods named in `methods` make of
/// `domain`: each name once, in dictionary order. A misspelling without a
/// dot is put under the top-level domain of `domain`. Every method named
/// has to be able to work on the domain; [`methods_can_run`] tells.
pub fn generate_with_methods(domain: &str, methods: &[&str]) -> (typos: Vec<String>)
    requires
        methods_apply(domain@, slice_texts(methods@)),
    ensures
        strictly_sorted(texts(typos@)),
        forall|t: Seq<char>|
            texts(typos@).contains(t) <==> candidates(domain@, slice_texts(methods@)).contains(t),
{
    let ghost wanted = slice_texts(methods@);
    let (_head, tld) = split_domain(domain);
    let tld_chars = chars_of(tld);
    let base = base_of(domain);
    let mut all: Vec<String> = Vec::new();
    let mut i: usize = 0;
    proof {
        assert(texts(all@) =~= Seq::<Seq<char>>::empty());
        assert(wanted.take(0).len() == 0);
    }
    while i < methods.len()
        invariant
            i <= methods.len(),
            base@ == squat_base(domain@),
            wanted == slice_texts(methods@),
            methods_apply(domain@, wanted),
            texts(all@) == generated(wanted.take(i as int), domain@, base@),
        decreases methods.len() - i,
    {
        let ghost earlier = all@;
        assert(wanted[i as int] == methods@[i as int]@);
        let mut made = run_method(methods[i], domain, base.as_str());
        all.append(&mut made);
        proof {
            assert(wanted.take(i + 1).drop_last() =~= wanted.take(i as int));
            assert(wanted.take(i + 1).last() == wanted[i as int]);
            assert(texts(all@) =~= texts(earlier) + method_typos(
                wanted[i as int],
                domain@,
                base@,
            ));
        }
        i += 1;
    }
    proof {
        assert(wanted.take(wanted.len() as int) =~= wanted);
    }
    let ghost names = completed_all(texts(all@), tld@);
    let mut sorted: Vec<Vec<char>> = Vec::new();
    let mut k: usize = 0;
    proof {
        assert(names.take(0).len() == 0);
        assert(rows(sorted@).len() == 0);
    }
    while k < all.len()
        invariant
            k <= all.len(),
            tld_chars@ == tld@,
            names == completed_all(texts(all@), tld@),
            strictly_sorted(rows(sorted@)),
            forall|t: Seq<char>| rows(sorted@).contains(t) <==> names.take(k as int).contains(t),
        decreases all.len() - k,
    {
        let mut name = chars_of(all[k].as_str());
        if !contains_char(name.as_slice(), '.') {
            name.push('.');
            let mut j: usize = 0;
            while j < tld_chars.len()
                invariant
                    k < all.len(),
                    j <= tld_chars.len(),
                    name@ == all@[k as int]@ + seq!['.'] + tld_chars@.take(j as int),
                decreases tld_chars.len() - j,
            {
                name.push(tld_chars[j]);
                proof {
                    assert(tld_chars@.take(j + 1) =~= tld_chars@.take(j as int).push(
                        tld_chars@[j as int],
                    ));
                    assert(name@ =~= all@[k as int]@ + seq!['.'] + tld_chars@.take(j + 1));
                }
                j += 1;
            }
            proof {
                assert(tld_chars@.take(tld_chars@.len() as int) =~= tld_chars@);
            }
        }
        assert(name@ == names[k as int]);
        insert_sorted(&mut sorted, name);
        proof {
            assert forall|t: Seq<char>| rows(sorted@).contains(t) <==> names.take(k + 1).contains(
                t,
            ) by {
                lemma_take_contains(names, k as int, t);
            }
        }
        k += 1;
    }
    proof {
        assert(names.take(names.len() as int) =~= names);
    }
    let mut typos: Vec<String> = Vec::new();
    let mut m: usize = 0;
    while m < sorted.len()
        invariant
            m <= sorted.len(),
            typos@.len() == m,
            forall|q: int| 0 <= q < m ==> (#[trigger] typos@[q])@ == sorted@[q]@,
        decreases sorted.len() - m,
    {
        typos.push(string_of(sorted[m].as_slice()));
        m += 1;
    }
    proof {
        assert(texts(typos@) =~= rows(sorted@));
    }
    typos
}

/// The pieces of `s` between its commas. A text without a comma is one
/// piece; a comma at either end leaves an empty piece there.
pub open spec fn pieces(s: Seq<char>) -> Seq<Seq<char>>
    decreases s.len(),
{
    if s.len() == 0 {
        seq![Seq::<char>::empty()]
    } else {
        let before = pieces(s.drop_last());
        if s.last() == ',' {
            before.push(Seq::<char>::empty())
        } else {
            before.drop_last().push(before.last().push(s.last()))
        }
    }
}

/// There is always at least one piece.
pub proof fn lemma_pieces_nonempty(s: Seq<char>)
    ensures
        pieces(s).len() >= 1,
    decreases s.len(),
{
    if s.len() > 0 {
        lemma_pieces_nonempty(s.drop_last());
    }
}

/// Executable form of [`pieces`].
pub fn split_commas(s: &str) -> (parts: Vec<String>)
    ensures
        texts(parts@) == pieces(s@),
{
    let cs = chars_of(s);
    let mut parts: Vec<String> = Vec::new();
    let mut piece: Vec<char> = Vec::new();
    let mut i: usize = 0;
    while i < cs.len()
        invariant
            i <= cs.len(),
            cs@ == s@,
            texts(parts@).push(piece@) == pieces(s@.take(i as int)),
        decreases cs.len() - i,
    {
        let ghost done = texts(parts@);
        let ghost open = piece@;
        proof {
            assert(s@.take(i + 1).drop_last() =~= s@.take(i as int));
            assert(done.push(open).drop_last() =~= done);
        }
        if cs[i] == ',' {
            parts.push(string_of(piece.as_slice()));
            piece = Vec::new();
            proof {
                assert(texts(parts@) =~= done.push(open));
            }
        } else {
            piece.push(cs[i]);
        }
        i += 1;
    }
    proof {
        assert(s@.take(s@.len() as int) =~= s@);
    }
    let ghost done = texts(parts@);
    parts.push(string_of(piece.as_slice()));
    proof {
        assert(texts(parts@) =~= done.push(piece@));
    }
    parts
}

/// The names of all methods, in the order they are run by default.
pub open spec fn default_methods() -> Seq<Seq<char>> {
    seq![
        "omission"@,
        "permutation"@,
        "substitution"@,
        "repetition"@,
        "missingdot"@,
        "homoglyph"@,
        "insertion"@,
        "tldswap"@,
        "hyphenation"@,
        "subdomain"@,
        "combo"@,
        "bitsquatting"@,
        "unicode"@,
    ]
}

/// Executable form of [`default_methods`].
pub fn all_methods() -> (methods: Vec<String>)
    ensures
        texts(methods@) == default_methods(),
{
    let mut methods: Vec<String> = Vec::new();
    methods.push(String::from_str("omission"));
    methods.push(String::from_str("permutation"));
    methods.push(String::from_str("substitution"));
    methods.push(String::from_str("repetition"));
    methods.push(String::from_str("missingdot"));
    methods.push(String::from_str("homoglyph"));
    methods.push(String::from_str("insertion"));
    methods.push(String::from_str("tldswap"));
    methods.push(String::from_str("hyphenation"));
    methods.push(String::from_str("subdomain"));
    methods.push(String::from_str("combo"));
    methods.push(String::from_str("bitsquatting"));
    methods.push(String::from_str("unicode"));
    proof {
        assert(texts(methods@) =~= default_methods());
    }
    methods
}

/// What a command line asks of the generator, as plain values.
pub struct ListingView {
    pub domain: Seq<char>,
    pub methods: Seq<Seq<char>>,
    pub output: Option<Seq<char>>,
}

/// What a command line asks of the generator.
pub struct ListingRequest {
    pub domain: String,
    pub methods: Vec<String>,
    pub output: Option<String>,
}

impl View for ListingRequest {
    type V = ListingView;

    open spec fn view(&self) -> ListingView {
        ListingView {
            domain: self.domain@,
            methods: texts(self.methods@),
            output: match self.output {
                Some(path) => Some(path@),
                None => None,
            },
        }
    }
}

/// What is asked before any argument is read: no domain, every method, no
/// output file.
pub open spec fn blank_listing() -> ListingView {
    ListingView { domain: Seq::<char>::empty(), methods: default_methods(), output: None }
}

/// Reads the arguments from position `i` on, `so_far` being what the
/// arguments before it asked for. `--method` takes the next argument as a
/// list of names between commas, `--output` takes the next argument as a
/// path; either one as the last argument is ignored. The first argument
/// that does not start with two hyphens is the domain as long as no domain
/// has been read; every other argument is ignored.
pub open spec fn listing_from(args: Seq<String>, i: int, so_far: ListingView) -> ListingView
    decreases args.len() - i,
{
    if i < 0 || i >= args.len() {
        so_far
    } else if args[i]@ == "--method"@ {
        if i + 1 < args.len() {
            listing_from(
                args,
                i + 2,
                ListingView { methods: pieces(args[i + 1]@), ..so_far },
            )
        } else {
            so_far
        }
    } else if args[i]@ == "--output"@ {
        if i + 1 < args.len() {
            listing_from(args, i + 2, ListingView { output: Some(args[i + 1]@), ..so_far })
        } else {
            so_far
        }
    } else if !"--"@.is_prefix_of(args[i]@) && so_far.domain.len() == 0 {
        listing_from(args, i + 1, ListingView { domain: args[i]@, ..so_far })
    } else {
        listing_from(args, i + 1, so_far)
    }
}

/// What the command line `args` asks of the generator.
pub open spec fn listing_request(args: Seq<String>) -> ListingView {
    listing_from(args, 0, blank_listing())
}

/// Reads the command line of the generator.
pub fn parse_listing_args(args: &[String]) -> (request: ListingRequest)
    ensures
        request@ == listing_request(args@),
{
    let mut request = ListingRequest { domain: String::new(), methods: all_methods(), output: None };
    let two_hyphens = chars_of("--");
    let mut i: usize = 0;
    while i < args.len()
        invariant
            i <= args.len(),
            two_hyphens@ == "--"@,
            listing_request(args@) == listing_from(args@, i as int, request@),
        decreases args.len() - i,
    {
        let arg = &args[i];
        if str_eq(arg.as_str(), "--method") {
            if i + 1 < args.len() {
                request.methods = split_commas(args[i + 1].as_str());
                i += 2;
            } else {
                return request;
            }
        } else if str_eq(arg.as_str(), "--output") {
            if i + 1 < args.len() {
                request.output = Some(args[i + 1].clone());
                i += 2;
            } else {
                return request;
            }
        } else {
            let arg_chars = chars_of(arg.as_str());
            if !has_prefix(arg_chars.as_slice(), two_hyphens.as_slice())
                && request.domain.as_str().is_empty() {
                request.domain = arg.clone();
            }
            i += 1;
        }
    }
    request
}

/// Directory and ending of the file that holds the list when the command
/// line names none.
pub open spec fn default_output_path(domain: Seq<char>) -> Seq<char> {
    "./output/typo/"@ + domain + ".txt"@
}

/// A list of look-alike names, ready to be written out.
pub struct TypoList {
    pub domain: String,
    pub output_path: String,
    pub typos: Vec<String>,
}

/// Whether `list` is what `request` asks for: the file named on the command
/// line, or the default file for the domain, and in it each look-alike name
/// of the domain once, in dictionary order.
pub open spec fn is_listing_of(list: TypoList, request: ListingView) -> bool {
    &&& list.domain@ == request.domain
    &&& list.output_path@ == match request.output {
        Some(path) => path,
        None => default_output_path(request.domain),
    }
    &&& strictly_sorted(texts(list.typos@))
    &&& forall|t: Seq<char>|
        texts(list.typos@).contains(t) <==> candidates(request.domain, request.methods).contains(t)
}

/// Makes the list that `request` asks for. Every method it names has to be
/// able to work on its domain; [`can_list`] tells.
pub fn list_for(request: ListingRequest) -> (list: TypoList)
    requires
        methods_apply(request@.domain, request@.methods),
    ensures
        is_listing_of(list, request@),
{
    let mut names: Vec<&str> = Vec::new();
    let mut i: usize = 0;
    while i < request.methods.len()
        invariant
            i <= request.methods.len(),
            names@.len() == i,
            forall|k: int| 0 <= k < i ==> (#[trigger] names@[k])@ == request.methods@[k]@,
        decreases request.methods.len() - i,
    {
        names.push(request.methods[i].as_str());
        i += 1;
    }
    proof {
        assert(slice_texts(names@) =~= texts(request.methods@));
    }
    let typos = generate_with_methods(request.domain.as_str(), names.as_slice());
    let output_path = match &request.output {
        Some(path) => path.clone(),
        None => {
            let mut path = String::from_str("./output/typo/");
            path.append(request.domain.as_str());
            path.append(".txt");
            path
        },
    };
    TypoList { domain: request.domain.clone(), output_path, typos }
}

/// Whether the generator can make the list that `request` asks for: it
/// names a domain, and every method it names can work on that domain.
pub fn can_list(request: &ListingRequest) -> (ready: bool)
    ensures
        ready == (request@.domain.len() > 0 && methods_apply(request@.domain, request@.methods)),
{
    if request.domain.as_str().is_empty() {
        return false;
    }
    let base = base_of(request.domain.as_str());
    let ghost names = texts(request.methods@);
    let mut i: usize = 0;
    while i < request.methods.len()
        invariant
            i <= request.methods.len(),
            base@ == squat_base(request.domain@),
            names == texts(request.methods@),
            forall|k: int| 0 <= k < i ==> method_applies(#[trigger] names[k], base@),
        decreases request.methods.len() - i,
    {
        assert(names[i as int] == request.methods@[i as int]@);
        if !method_can_run(request.methods[i].as_str(), base.as_str()) {
            return false;
        }
        i += 1;
    }
    true
}

/// Reads the command line of the generator and makes the list it asks for.
/// `None` stands for a command line that names no domain. Every method
/// that the command line names has to be able to work on its domain.
pub fn generate_list(args: Vec<String>) -> (list: Option<TypoList>)
    requires
        listing_request(args@).domain.len() > 0 ==> methods_apply(
            listing_request(args@).domain,
            listing_request(args@).methods,
        ),
    ensures
        match list {
            Some(l) => listing_request(args@).domain.len() > 0 && is_listing_of(
                l,
                listing_request(args@),
            ),
            None => listing_request(args@).domain.len() == 0,
        },
{
    let request = parse_listing_args(args.as_slice());
    if request.domain.as_str().is_empty() {
        None
    } else {
        Some(list_for(request))
    }
}

} // verus!
