//! The mail set-up of a domain: what its SPF, DKIM and DMARC records say,
//! and what is wrong with them.

use crate::pattern::{capture_group, regex_group};
use crate::text::{
    chars_of, contains_text, ends_with, has_prefix, has_substring, matches_at, optional_slice,
    optional_text, slice_texts, str_eq, string_of, texts,
};
use crate::words::{split_words, words};
use vstd::prelude::*;

verus! {

/// The selector under which the DKIM record is looked for.
pub const DKIM_SELECTOR: &'static str = "default";

/// The name under which the DKIM record of `domain` is looked for.
pub open spec fn dkim_name(domain: Seq<char>) -> Seq<char> {
    DKIM_SELECTOR@ + "._domainkey."@ + domain
}

/// The name under which the DMARC record of `domain` is looked for.
pub open spec fn dmarc_name(domain: Seq<char>) -> Seq<char> {
    "_dmarc."@ + domain
}

/// Executable form of [`dkim_name`].
pub fn dkim_domain(domain: &str) -> (name: String)
    ensures
        name@ == dkim_name(domain@),
{
    let mut name = String::from_str(DKIM_SELECTOR);
    name.append("._domainkey.");
    name.append(domain);
    name
}

/// Executable form of [`dmarc_name`].
pub fn dmarc_domain(domain: &str) -> (name: String)
    ensures
        name@ == dmarc_name(domain@),
{
    let mut name = String::from_str("_dmarc.");
    name.append(domain);
    name
}

/// The first of `records` that starts with `marker`.
pub open spec fn first_starting_with(records: Seq<String>, marker: Seq<char>) -> Option<Seq<char>>
    decreases records.len(),
{
    if records.len() == 0 {
        None
    } else if marker.is_prefix_of(records[0]@) {
        Some(records[0]@)
    } else {
        first_starting_with(records.drop_first(), marker)
    }
}

/// The first of `records` that holds `marker`.
pub open spec fn first_holding(records: Seq<String>, marker: Seq<char>) -> Option<Seq<char>>
    decreases records.len(),
{
    if records.len() == 0 {
        None
    } else if has_substring(records[0]@, marker) {
        Some(records[0]@)
    } else {
        first_holding(records.drop_first(), marker)
    }
}

/// Finds the first of `records` that starts with `marker`.
pub fn find_starting_with<'a>(records: &'a [String], marker: &str) -> (found: Option<&'a str>)
    ensures
        optional_slice(found) == first_starting_with(records@, marker@),
{
    let wanted = chars_of(marker);
    let mut i: usize = 0;
    proof {
        assert(records@.skip(0) =~= records@);
    }
    while i < records.len()
        invariant
            i <= records.len(),
            wanted@ == marker@,
            first_starting_with(records@, marker@) == first_starting_with(
                records@.skip(i as int),
                marker@,
            ),
        decreases records.len() - i,
    {
        proof {
            assert(records@.skip(i as int)[0] == records@[i as int]);
            assert(records@.skip(i as int).drop_first() =~= records@.skip(i + 1));
        }
        let record = chars_of(records[i].as_str());
        if has_prefix(record.as_slice(), wanted.as_slice()) {
            return Some(records[i].as_str());
        }
        i += 1;
    }
    None
}

/// Finds the first of `records` that holds `marker`.
pub fn find_holding<'a>(records: &'a [String], marker: &str) -> (found: Option<&'a str>)
    ensures
        optional_slice(found) == first_holding(records@, marker@),
{
    let wanted = chars_of(marker);
    let mut i: usize = 0;
    proof {
        assert(records@.skip(0) =~= records@);
    }
    while i < records.len()
        invariant
            i <= records.len(),
            wanted@ == marker@,
            first_holding(records@, marker@) == first_holding(records@.skip(i as int), marker@),
        decreases records.len() - i,
    {
        proof {
            assert(records@.skip(i as int)[0] == records@[i as int]);
            assert(records@.skip(i as int).drop_first() =~= records@.skip(i + 1));
        }
        let record = chars_of(records[i].as_str());
        if contains_text(record.as_slice(), wanted.as_slice()) {
            return Some(records[i].as_str());
        }
        i += 1;
    }
    None
}

/// One part of an SPF record, as plain values.
pub enum SpfPartView {
    Include(Seq<char>),
    Ipv4(Seq<char>),
    Ipv6(Seq<char>),
    Mechanism(Seq<char>),
    Policy(Seq<char>),
    Other(Seq<char>),
}

/// One part of an SPF record.
#[derive(Debug, PartialEq, Eq)]
pub enum SpfPart {
    /// `include:` and the domain whose record is included.
    Include(String),
    /// `ip4:` and an address or a range.
    Ipv4(String),
    /// `ip6:` and an address or a range.
    Ipv6(String),
    /// A part that starts with `a` or `mx`.
    Mechanism(String),
    /// A part that ends with `all`.
    Policy(String),
    /// Any other part.
    Other(String),
}

impl View for SpfPart {
    type V = SpfPartView;

    open spec fn view(&self) -> SpfPartView {
        match self {
            SpfPart::Include(t) => SpfPartView::Include(t@),
            SpfPart::Ipv4(t) => SpfPartView::Ipv4(t@),
            SpfPart::Ipv6(t) => SpfPartView::Ipv6(t@),
            SpfPart::Mechanism(t) => SpfPartView::Mechanism(t@),
            SpfPart::Policy(t) => SpfPartView::Policy(t@),
            SpfPart::Other(t) => SpfPartView::Other(t@),
        }
    }
}

/// The views of a list of parts.
pub open spec fn spf_part_views(parts: Seq<SpfPart>) -> Seq<SpfPartView> {
    Seq::new(parts.len(), |i: int| parts[i]@)
}

/// What the word `part` of an SPF record is. The checks are made in this
/// order: `include:`, `ip4:`, `ip6:`, a start with `a` or `mx`, the version
/// tag, an end with `all`. The version tag is no part.
pub open spec fn spf_part(part: Seq<char>) -> Option<SpfPartView> {
    if "include:"@.is_prefix_of(part) {
        Some(SpfPartView::Include(part.skip(8)))
    } else if "ip4:"@.is_prefix_of(part) {
        Some(SpfPartView::Ipv4(part.skip(4)))
    } else if "ip6:"@.is_prefix_of(part) {
        Some(SpfPartView::Ipv6(part.skip(4)))
    } else if "a"@.is_prefix_of(part) || "mx"@.is_prefix_of(part) {
        Some(SpfPartView::Mechanism(part))
    } else if "v=spf1"@.is_prefix_of(part) {
        None
    } else if ends_with(part, "all"@) {
        Some(SpfPartView::Policy(part))
    } else {
        Some(SpfPartView::Other(part))
    }
}

/// The parts among the words `list`.
pub open spec fn spf_parts_of(list: Seq<Seq<char>>) -> Seq<SpfPartView>
    decreases list.len(),
{
    if list.len() == 0 {
        Seq::<SpfPartView>::empty()
    } else {
        match spf_part(list.last()) {
            Some(part) => spf_parts_of(list.drop_last()).push(part),
            None => spf_parts_of(list.drop_last()),
        }
    }
}

/// The parts of an SPF record: its words, each for what it is.
pub open spec fn spf_parts(record: Seq<char>) -> Seq<SpfPartView> {
    spf_parts_of(words(record))
}

/// The characters of `cs` from position `from` on.
fn tail_of(cs: &[char], from: usize) -> (out: String)
    requires
        from <= cs@.len(),
    ensures
        out@ == cs@.skip(from as int),
{
    let mut out: Vec<char> = Vec::new();
    let mut i: usize = from;
    while i < cs.len()
        invariant
            from <= i <= cs.len(),
            out@ == cs@.subrange(from as int, i as int),
        decreases cs.len() - i,
    {
        out.push(cs[i]);
        proof {
            assert(cs@.subrange(from as int, i + 1) =~= cs@.subrange(from as int, i as int).push(
                cs@[i as int],
            ));
        }
        i += 1;
    }
    proof {
        assert(cs@.subrange(from as int, cs@.len() as int) =~= cs@.skip(from as int));
    }
    string_of(out.as_slice())
}

/// Says what a word of an SPF record is.
pub fn classify_spf_part(part: &str) -> (kind: Option<SpfPart>)
    ensures
        match kind {
            Some(p) => spf_part(part@) == Some(p@),
            None => spf_part(part@) is None,
        },
{
    let cs = chars_of(part);
    proof {
        reveal_strlit("include:");
        reveal_strlit("ip4:");
        reveal_strlit("ip6:");
    }
    if has_prefix(cs.as_slice(), chars_of("include:").as_slice()) {
        Some(SpfPart::Include(tail_of(cs.as_slice(), 8)))
    } else if has_prefix(cs.as_slice(), chars_of("ip4:").as_slice()) {
        Some(SpfPart::Ipv4(tail_of(cs.as_slice(), 4)))
    } else if has_prefix(cs.as_slice(), chars_of("ip6:").as_slice()) {
        Some(SpfPart::Ipv6(tail_of(cs.as_slice(), 4)))
    } else if has_prefix(cs.as_slice(), chars_of("a").as_slice()) || has_prefix(
        cs.as_slice(),
        chars_of("mx").as_slice(),
    ) {
        Some(SpfPart::Mechanism(String::from_str(part)))
    } else if has_prefix(cs.as_slice(), chars_of("v=spf1").as_slice()) {
        None
    } else {
        let all = chars_of("all");
        let at_end = all.len() <= cs.len() && matches_at(
            cs.as_slice(),
            all.as_slice(),
            cs.len() - all.len(),
        );
        if at_end {
            Some(SpfPart::Policy(String::from_str(part)))
        } else {
            Some(SpfPart::Other(String::from_str(part)))
        }
    }
}

/// Takes an SPF record apart.
pub fn parse_spf(record: &str) -> (parts: Vec<SpfPart>)
    ensures
        spf_part_views(parts@) == spf_parts(record@),
{
    let list = split_words(record);
    let ghost all = texts(list@);
    let mut parts: Vec<SpfPart> = Vec::new();
    let mut i: usize = 0;
    proof {
        assert(spf_part_views(parts@) =~= spf_parts_of(all.take(0)));
    }
    while i < list.len()
        invariant
            i <= list.len(),
            all == texts(list@),
            spf_part_views(parts@) == spf_parts_of(all.take(i as int)),
        decreases list.len() - i,
    {
        let ghost done = spf_part_views(parts@);
        proof {
            assert(all.take(i + 1).drop_last() =~= all.take(i as int));
            assert(all.take(i + 1).last() == list@[i as int]@);
        }
        match classify_spf_part(list[i].as_str()) {
            Some(part) => {
                parts.push(part);
                proof {
                    assert(spf_part_views(parts@) =~= done.push(spf_part(list@[i as int]@)->0));
                }
            },
            None => {},
        }
        i += 1;
    }
    proof {
        assert(all.take(all.len() as int) =~= all);
    }
    parts
}

/// Whether an SPF record ends on a soft or a hard failure.
pub open spec fn spf_is_strict(record: Seq<char>) -> bool {
    has_substring(record, "~all"@) || has_substring(record, "-all"@)
}

/// The expression that finds the policy of a DMARC record.
pub const POLICY_PATTERN: &'static str = "p=([a-zA-Z]+)";

/// The policy that a DMARC record sets, if it sets one.
pub open spec fn dmarc_policy(record: Seq<char>) -> Option<Seq<char>> {
    regex_group(POLICY_PATTERN@, record, 1)
}

/// Finds the policy that a DMARC record sets.
pub fn find_dmarc_policy(record: &str) -> (policy: Option<String>)
    ensures
        optional_text(policy) == dmarc_policy(record@),
{
    capture_group(POLICY_PATTERN, record, 1)
}

pub const ISSUE_SPF_LAX: &'static str = "SPF policy may not be strict enough.";

pub const ISSUE_SPF_MISSING: &'static str = "Missing SPF record.";

pub const ISSUE_DKIM_MISSING: &'static str =
    "Missing DKIM record or wrong selector (default used here).";

pub const ISSUE_DMARC_NONE: &'static str =
    "DMARC policy is 'none'; consider 'quarantine' or 'reject'.";

pub const ISSUE_DMARC_NO_POLICY: &'static str = "DMARC record missing 'p=' policy.";

pub const ISSUE_DMARC_MISSING: &'static str = "Missing DMARC record.";

/// What is wrong with the SPF record.
pub open spec fn spf_issues(spf: Option<Seq<char>>) -> Seq<Seq<char>> {
    match spf {
        Some(record) => if spf_is_strict(record) {
            Seq::<Seq<char>>::empty()
        } else {
            seq![ISSUE_SPF_LAX@]
        },
        None => seq![ISSUE_SPF_MISSING@],
    }
}

/// What is wrong with the DKIM record.
pub open spec fn dkim_issues(dkim: Option<Seq<char>>) -> Seq<Seq<char>> {
    match dkim {
        Some(_) => Seq::<Seq<char>>::empty(),
        None => seq![ISSUE_DKIM_MISSING@],
    }
}

/// What is wrong with the DMARC record, `policy` being the policy it sets.
pub open spec fn dmarc_issues(dmarc: Option<Seq<char>>, policy: Option<Seq<char>>) -> Seq<
    Seq<char>,
> {
    match dmarc {
        Some(_) => match policy {
            Some(p) => if p == "none"@ {
                seq![ISSUE_DMARC_NONE@]
            } else {
                Seq::<Seq<char>>::empty()
            },
            None => seq![ISSUE_DMARC_NO_POLICY@],
        },
        None => seq![ISSUE_DMARC_MISSING@],
    }
}

/// What is wrong with the mail set-up: the issues of the SPF record, then
/// those of the DKIM record, then those of the DMARC record.
pub open spec fn mail_issues(
    spf: Option<Seq<char>>,
    dkim: Option<Seq<char>>,
    dmarc: Option<Seq<char>>,
    policy: Option<Seq<char>>,
) -> Seq<Seq<char>> {
    spf_issues(spf) + dkim_issues(dkim) + dmarc_issues(dmarc, policy)
}

/// Lists what is wrong with the mail set-up, `policy` being the policy that
/// the DMARC record sets.
pub fn list_issues(
    spf: Option<&str>,
    dkim: Option<&str>,
    dmarc: Option<&str>,
    policy: Option<&str>,
) -> (issues: Vec<&'static str>)
    ensures
        slice_texts(issues@) == mail_issues(
            optional_slice(spf),
            optional_slice(dkim),
            optional_slice(dmarc),
            optional_slice(policy),
        ),
{
    let mut issues: Vec<&'static str> = Vec::new();
    match spf {
        Some(record) => {
            let cs = chars_of(record);
            if !contains_text(cs.as_slice(), chars_of("~all").as_slice()) && !contains_text(
                cs.as_slice(),
                chars_of("-all").as_slice(),
            ) {
                issues.push(ISSUE_SPF_LAX);
            }
        },
        None => {
            issues.push(ISSUE_SPF_MISSING);
        },
    }
    proof {
        assert(slice_texts(issues@) =~= spf_issues(optional_slice(spf)));
    }
    let ghost first = slice_texts(issues@);
    if dkim.is_none() {
        issues.push(ISSUE_DKIM_MISSING);
    }
    proof {
        assert(slice_texts(issues@) =~= first + dkim_issues(optional_slice(dkim)));
    }
    let ghost second = slice_texts(issues@);
    match dmarc {
        Some(_) => match policy {
            Some(p) => {
                if str_eq(p, "none") {
                    issues.push(ISSUE_DMARC_NONE);
                }
            },
            None => {
                issues.push(ISSUE_DMARC_NO_POLICY);
            },
        },
        None => {
            issues.push(ISSUE_DMARC_MISSING);
        },
    }
    proof {
        assert(slice_texts(issues@) =~= second + dmarc_issues(
            optional_slice(dmarc),
            optional_slice(policy),
        ));
    }
    issues
}

/// What a scan of the mail set-up of a domain found.
pub struct MailReport {
    /// The SPF record.
    pub spf: Option<String>,
    /// The parts of the SPF record.
    pub spf_parts: Vec<SpfPart>,
    /// The name under which the DKIM record was looked for.
    pub dkim_domain: String,
    /// The DKIM record.
    pub dkim: Option<String>,
    /// The DMARC record.
    pub dmarc: Option<String>,
    /// The policy that the DMARC record sets.
    pub dmarc_policy: Option<String>,
    /// What is wrong, in the order of the records.
    pub issues: Vec<&'static str>,
}

/// Whether `report` is what the text records of a domain say: `at_domain`
/// are the records of the domain itself, `at_dkim` those under its DKIM
/// name, `at_dmarc` those under its DMARC name.
pub open spec fn is_report_of(
    report: MailReport,
    domain: Seq<char>,
    at_domain: Seq<String>,
    at_dkim: Seq<String>,
    at_dmarc: Seq<String>,
) -> bool {
    let spf = first_starting_with(at_domain, "v=spf1"@);
    let dkim = first_holding(at_dkim, "v=DKIM1"@);
    let dmarc = first_holding(at_dmarc, "v=DMARC1"@);
    let policy = match dmarc {
        Some(record) => dmarc_policy(record),
        None => None,
    };
    &&& optional_text(report.spf) == spf
    &&& spf_part_views(report.spf_parts@) == match spf {
        Some(record) => spf_parts(record),
        None => Seq::<SpfPartView>::empty(),
    }
    &&& report.dkim_domain@ == dkim_name(domain)
    &&& optional_text(report.dkim) == dkim
    &&& optional_text(report.dmarc) == dmarc
    &&& optional_text(report.dmarc_policy) == policy
    &&& slice_texts(report.issues@) == mail_issues(spf, dkim, dmarc, policy)
}

/// An owned copy of an optional text.
fn owned(text: Option<&str>) -> (copy: Option<String>)
    ensures
        optional_text(copy) == optional_slice(text),
{
    match text {
        Some(t) => Some(String::from_str(t)),
        None => None,
    }
}

/// A borrowed form of an optional text.
fn borrowed(text: &Option<String>) -> (slice: Option<&str>)
    ensures
        optional_slice(slice) == optional_text(*text),
{
    match text {
        Some(t) => Some(t.as_str()),
        None => None,
    }
}

/// Reads the mail set-up of `domain` off its text records: `at_domain` are
/// the records of the domain itself, `at_dkim` those under its DKIM name,
/// `at_dmarc` those under its DMARC name. A lookup that failed counts as
/// one that found no record.
pub fn mail_scan(domain: &str, at_domain: &[String], at_dkim: &[String], at_dmarc: &[String]) -> (report:
    MailReport)
    ensures
        is_report_of(report, domain@, at_domain@, at_dkim@, at_dmarc@),
{
    let spf = find_starting_with(at_domain, "v=spf1");
    let dkim = find_holding(at_dkim, "v=DKIM1");
    let dmarc = find_holding(at_dmarc, "v=DMARC1");
    let spf_parts = match spf {
        Some(record) => parse_spf(record),
        None => {
            let parts: Vec<SpfPart> = Vec::new();
            proof {
                assert(spf_part_views(parts@) =~= Seq::<SpfPartView>::empty());
            }
            parts
        },
    };
    let dmarc_policy = match dmarc {
        Some(record) => find_dmarc_policy(record),
        None => None,
    };
    let issues = list_issues(spf, dkim, dmarc, borrowed(&dmarc_policy));
    MailReport {
        spf: owned(spf),
        spf_parts,
        dkim_domain: dkim_domain(domain),
        dkim: owned(dkim),
        dmarc: owned(dmarc),
        dmarc_policy,
        issues,
    }
}

} // verus!
