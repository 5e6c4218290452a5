//! Certificates from a transparency log: the query that asks for them, and
//! the list of them with each name once.

use crate::sorted::{
    lemma_insert_contains, lemma_insert_keeps_order, locate, rows, strictly_sorted,
};
use crate::text::chars_of;
use vstd::prelude::*;

verus! {

/// One certificate, as the log reports it.
pub struct CertificateEntry {
    pub common_name: Option<String>,
    pub entry_timestamp: String,
    pub id: u64,
    pub issuer_ca_id: u32,
    pub issuer_name: String,
    pub name_value: String,
    pub not_after: String,
    pub not_before: String,
    pub result_count: Option<u32>,
    pub serial_number: String,
}

/// The address that asks the log for the certificates of `domain`.
pub open spec fn query_url(domain: Seq<char>) -> Seq<char> {
    "https://crt.sh/?q="@ + domain + "&output=json"@
}

/// Executable form of [`query_url`].
pub fn certificate_query(domain: &str) -> (url: String)
    ensures
        url@ == query_url(domain@),
{
    let mut url = String::from_str("https://crt.sh/?q=");
    url.append(domain);
    url.append("&output=json");
    url
}

/// The names of a list of certificates.
pub open spec fn names(certs: Seq<CertificateEntry>) -> Seq<Seq<char>> {
    Seq::new(certs.len(), |i: int| certs[i].name_value@)
}

/// Whether no certificate before the one at `at` has its name.
pub open spec fn is_first_of_its_name(certs: Seq<CertificateEntry>, at: int) -> bool {
    forall|k: int| 0 <= k < at ==> (#[trigger] certs[k]).name_value@ != certs[at].name_value@
}

/// Whether `cert` is one of `certs` and the first of them that has its name.
pub open spec fn came_first(cert: CertificateEntry, certs: Seq<CertificateEntry>) -> bool {
    exists|i: int| 0 <= i < certs.len() && #[trigger] certs[i] == cert && is_first_of_its_name(
        certs,
        i,
    )
}

/// Whether `kept` is the list `certs` with each name once: in the
/// dictionary order of the names, each name of `certs` being there with the
/// first certificate that has it.
pub open spec fn is_unique_by_name(kept: Seq<CertificateEntry>, certs: Seq<CertificateEntry>) -> bool {
    &&& strictly_sorted(names(kept))
    &&& forall|j: int| 0 <= j < kept.len() ==> came_first(#[trigger] kept[j], certs)
    &&& forall|i: int| 0 <= i < certs.len() ==> names(kept).contains((#[trigger] certs[i]).name_value@)
}

/// Puts the certificates in the order of their names and keeps, of those
/// that share a name, the one that came first.
pub fn unique_by_name(certs: Vec<CertificateEntry>) -> (kept: Vec<CertificateEntry>)
    ensures
        is_unique_by_name(kept@, certs@),
{
    let ghost all = certs@;
    let mut kept: Vec<CertificateEntry> = Vec::new();
    let mut keys: Vec<Vec<char>> = Vec::new();
    let ghost mut origin: Seq<int> = Seq::empty();
    proof {
        assert(rows(keys@) =~= names(kept@));
    }
    for cert in it: certs
        invariant
            it.seq() == all,
            rows(keys@) == names(kept@),
            strictly_sorted(rows(keys@)),
            origin.len() == kept@.len(),
            forall|j: int|
                0 <= j < kept@.len() ==> 0 <= #[trigger] origin[j] < it.index() && kept@[j]
                    == all[origin[j]] && is_first_of_its_name(all, origin[j]),
            forall|m: int|
                0 <= m < it.index() ==> names(kept@).contains((#[trigger] all[m]).name_value@),
    {
        let ghost at = it.index() as int;
        let ghost before = names(kept@);
        let ghost kept_before = kept@;
        let ghost origin_before = origin;
        let name = chars_of(cert.name_value.as_str());
        let (p, found) = locate(&keys, name.as_slice());
        if found {
            proof {
                assert(before[p as int] == name@);
            }
        } else {
            proof {
                assert forall|k: int| 0 <= k < at implies (#[trigger] all[k]).name_value@
                    != all[at].name_value@ by {
                    assert(before.contains(all[k].name_value@));
                }
                lemma_insert_keeps_order(before, p as int, name@);
            }
            keys.insert(p, name);
            kept.insert(p, cert);
            proof {
                origin = origin.insert(p as int, at);
                assert(rows(keys@) =~= before.insert(p as int, all[at].name_value@));
                assert(names(kept@) =~= before.insert(p as int, all[at].name_value@));
                assert forall|j: int| 0 <= j < kept@.len() implies 0 <= #[trigger] origin[j] < at
                    + 1 && kept@[j] == all[origin[j]] && is_first_of_its_name(all, origin[j]) by {
                    if j < p {
                        assert(origin[j] == origin_before[j]);
                        assert(kept@[j] == kept_before[j]);
                    } else if j > p {
                        assert(origin[j] == origin_before[j - 1]);
                        assert(kept@[j] == kept_before[j - 1]);
                    }
                }
            }
        }
        proof {
            assert forall|m: int| 0 <= m < at + 1 implies names(kept@).contains(
                (#[trigger] all[m]).name_value@,
            ) by {
                if found {
                    if m == at {
                        assert(before[p as int] == all[at].name_value@);
                    }
                } else {
                    lemma_insert_contains(
                        before,
                        p as int,
                        all[at].name_value@,
                        all[m].name_value@,
                    );
                }
            }
        }
    }
    proof {
        assert forall|j: int| 0 <= j < kept@.len() implies came_first(#[trigger] kept@[j], all) by {
            assert(all[origin[j]] == kept@[j]);
        }
    }
    kept
}

/// What a query gives in the end. An answer that reports a failure, or
/// whose body is no list of certificates, gives nothing; any other gives
/// its certificates with each name once.
pub fn certificates_from_response(success: bool, body: Option<Vec<CertificateEntry>>) -> (kept: Vec<
    CertificateEntry,
>)
    ensures
        match body {
            Some(certs) if success => is_unique_by_name(kept@, certs@),
            _ => kept@.len() == 0,
        },
{
    if !success {
        return Vec::new();
    }
    match body {
        Some(certs) => unique_by_name(certs),
        None => Vec::new(),
    }
}

/// The names of a certificate in one line: every line feed of the text
/// gives way to a comma and a blank.
pub open spec fn names_in_line(names: Seq<char>) -> Seq<char>
    decreases names.len(),
{
    if names.len() == 0 {
        names
    } else if names.last() == '\n' {
        names_in_line(names.drop_last()) + seq![',', ' ']
    } else {
        names_in_line(names.drop_last()).push(names.last())
    }
}

/// The line that lists a certificate: `- [<time of entry>] <names>`.
pub open spec fn certificate_line(cert: CertificateEntry) -> Seq<char> {
    "- ["@ + cert.entry_timestamp@ + "] "@ + names_in_line(cert.name_value@)
}

/// Writes the line that lists a certificate.
pub fn format_certificate(cert: &CertificateEntry) -> (line: String)
    ensures
        line@ == certificate_line(*cert),
{
    let mut line = String::from_str("- [");
    line.append(cert.entry_timestamp.as_str());
    line.append("] ");
    let ghost head = line@;
    let cs = chars_of(cert.name_value.as_str());
    let mut i: usize = 0;
    proof {
        assert(line@ =~= head + names_in_line(cs@.take(0)));
    }
    while i < cs.len()
        invariant
            i <= cs.len(),
            line@ == head + names_in_line(cs@.take(i as int)),
        decreases cs.len() - i,
    {
        proof {
            assert(cs@.take(i + 1).drop_last() =~= cs@.take(i as int));
        }
        if cs[i] == '\n' {
            line.push(',');
            line.push(' ');
        } else {
            line.push(cs[i]);
        }
        proof {
            assert(line@ =~= head + names_in_line(cs@.take(i + 1)));
        }
        i += 1;
    }
    proof {
        assert(cs@.take(cs@.len() as int) =~= cs@);
    }
    line
}

} // verus!
