//! The system journal: what kind of event an entry reports, the lines that
//! list entries, and the search for entries that look suspicious.

use crate::pattern::{capture_group, regex_group};
use crate::tally::{
    add_line, bump, bumped, counts, counts_within, groups, lemma_bumped_within, with_line, Count,
    CountView, Group, GroupView,
};
use crate::text::{
    chars_of, contains_text, decimal, has_substring, lowercase, optional_text, push_decimal,
    str_contains, str_eq, texts,
};
use vstd::prelude::*;

verus! {

/// One entry of the journal. Every field may be missing.
pub struct JournalEntry {
    pub priority: Option<String>,
    pub syslog_identifier: Option<String>,
    pub uid: Option<String>,
    pub pid: Option<String>,
    pub message: Option<String>,
    pub timestamp: Option<String>,
    pub systemd_unit: Option<String>,
}

/// The text of a field, or `fallback` where the field is missing.
pub open spec fn text_or(field: Option<String>, fallback: Seq<char>) -> Seq<char> {
    match field {
        Some(text) => text@,
        None => fallback,
    }
}

/// Executable form of [`text_or`].
pub fn field_or<'a>(field: &'a Option<String>, fallback: &'a str) -> (text: &'a str)
    ensures
        text@ == text_or(*field, fallback@),
{
    match field {
        Some(text) => text.as_str(),
        None => fallback,
    }
}

/// The kinds of event that an entry can report.
#[derive(Clone, Copy, Debug, PartialEq, Eq, Structural)]
pub enum EventType {
    FailedLogin,
    ServiceRestart,
    PrivilegeEscalation,
    Unknown,
}

/// The kind of event that a message reports, the message being in lower
/// case. A failed login is looked for first, then a restart, then a
/// privilege escalation.
pub open spec fn message_kind(lowered: Seq<char>) -> EventType {
    if has_substring(lowered, "failed password"@) || has_substring(
        lowered,
        "authentication failure"@,
    ) {
        EventType::FailedLogin
    } else if has_substring(lowered, "started"@) || has_substring(lowered, "restarted"@) {
        EventType::ServiceRestart
    } else if has_substring(lowered, "sudo"@) && has_substring(lowered, "session opened"@) {
        EventType::PrivilegeEscalation
    } else {
        EventType::Unknown
    }
}

/// The kind of event that an entry reports: that of its message in lower
/// case, and unknown for an entry without a message.
pub open spec fn entry_kind(entry: JournalEntry) -> EventType {
    match entry.message {
        Some(message) => message_kind(lowercase(message@)),
        None => EventType::Unknown,
    }
}

/// Classifies a message that is already in lower case.
pub fn classify_message(lowered: &str) -> (kind: EventType)
    ensures
        kind == message_kind(lowered@),
{
    let text = chars_of(lowered);
    if contains_text(text.as_slice(), chars_of("failed password").as_slice()) || contains_text(
        text.as_slice(),
        chars_of("authentication failure").as_slice(),
    ) {
        EventType::FailedLogin
    } else if contains_text(text.as_slice(), chars_of("started").as_slice()) || contains_text(
        text.as_slice(),
        chars_of("restarted").as_slice(),
    ) {
        EventType::ServiceRestart
    } else if contains_text(text.as_slice(), chars_of("sudo").as_slice()) && contains_text(
        text.as_slice(),
        chars_of("session opened").as_slice(),
    ) {
        EventType::PrivilegeEscalation
    } else {
        EventType::Unknown
    }
}

/// Classifies an entry by its message.
pub fn classify_event(entry: &JournalEntry) -> (kind: EventType)
    ensures
        kind == entry_kind(*entry),
{
    match &entry.message {
        Some(message) => {
            let lowered = message.as_str().to_lowercase();
            classify_message(lowered.as_str())
        },
        None => EventType::Unknown,
    }
}

/// The heading under which events of a kind are listed.
pub open spec fn kind_label(kind: EventType) -> Seq<char> {
    match kind {
        EventType::FailedLogin => "Failed Login"@,
        EventType::ServiceRestart => "Service Restart"@,
        EventType::PrivilegeEscalation => "Privilege Escalation"@,
        EventType::Unknown => "Unknown"@,
    }
}

/// Executable form of [`kind_label`].
pub fn event_label(kind: EventType) -> (label: &'static str)
    ensures
        label@ == kind_label(kind),
{
    match kind {
        EventType::FailedLogin => "Failed Login",
        EventType::ServiceRestart => "Service Restart",
        EventType::PrivilegeEscalation => "Privilege Escalation",
        EventType::Unknown => "Unknown",
    }
}

/// The line that lists an entry on its own:
/// `[<priority>] <identifier> (PID: <pid>) — <message>`.
pub open spec fn extract_line(entry: JournalEntry) -> Seq<char> {
    "["@ + text_or(entry.priority, "?"@) + "] "@ + text_or(entry.syslog_identifier, "unknown"@)
        + " (PID: "@ + text_or(entry.pid, "?"@) + ") \u{2014} "@ + text_or(
        entry.message,
        "empty"@,
    )
}

/// The line that lists an entry under its identifier:
/// `[<priority>] PID <pid>: <message>`.
pub open spec fn group_line(entry: JournalEntry) -> Seq<char> {
    "["@ + text_or(entry.priority, "?"@) + "] PID "@ + text_or(entry.pid, "?"@) + ": "@ + text_or(
        entry.message,
        "empty message"@,
    )
}

/// The line that lists an entry under the kind of its event:
/// `[<priority>] <identifier> (PID: <pid>): <message>`.
pub open spec fn scan_line(entry: JournalEntry) -> Seq<char> {
    "["@ + text_or(entry.priority, "?"@) + "] "@ + text_or(entry.syslog_identifier, "unknown"@)
        + " (PID: "@ + text_or(entry.pid, "?"@) + "): "@ + text_or(entry.message, "empty"@)
}

/// Writes the line that lists an entry on its own.
pub fn format_extract_line(entry: &JournalEntry) -> (line: String)
    ensures
        line@ == extract_line(*entry),
{
    let mut line = String::from_str("[");
    line.append(field_or(&entry.priority, "?"));
    line.append("] ");
    line.append(field_or(&entry.syslog_identifier, "unknown"));
    line.append(" (PID: ");
    line.append(field_or(&entry.pid, "?"));
    line.append(") \u{2014} ");
    line.append(field_or(&entry.message, "empty"));
    line
}

/// Writes the line that lists an entry under its identifier.
pub fn format_group_line(entry: &JournalEntry) -> (line: String)
    ensures
        line@ == group_line(*entry),
{
    let mut line = String::from_str("[");
    line.append(field_or(&entry.priority, "?"));
    line.append("] PID ");
    line.append(field_or(&entry.pid, "?"));
    line.append(": ");
    line.append(field_or(&entry.message, "empty message"));
    line
}

/// Writes the line that lists an entry under the kind of its event.
pub fn format_scan_line(entry: &JournalEntry) -> (line: String)
    ensures
        line@ == scan_line(*entry),
{
    let mut line = String::from_str("[");
    line.append(field_or(&entry.priority, "?"));
    line.append("] ");
    line.append(field_or(&entry.syslog_identifier, "unknown"));
    line.append(" (PID: ");
    line.append(field_or(&entry.pid, "?"));
    line.append("): ");
    line.append(field_or(&entry.message, "empty"));
    line
}

/// The entries listed under their identifiers, `unknown` standing for a
/// missing one.
pub open spec fn by_identifier(entries: Seq<JournalEntry>) -> Seq<GroupView>
    decreases entries.len(),
{
    if entries.len() == 0 {
        Seq::<GroupView>::empty()
    } else {
        with_line(
            by_identifier(entries.drop_last()),
            text_or(entries.last().syslog_identifier, "unknown"@),
            group_line(entries.last()),
        )
    }
}

/// The entries listed under the kinds of their events.
pub open spec fn by_kind(entries: Seq<JournalEntry>) -> Seq<GroupView>
    decreases entries.len(),
{
    if entries.len() == 0 {
        Seq::<GroupView>::empty()
    } else {
        with_line(
            by_kind(entries.drop_last()),
            kind_label(entry_kind(entries.last())),
            scan_line(entries.last()),
        )
    }
}

/// Lists the entries under their identifiers.
pub fn group_entries(entries: &[JournalEntry]) -> (table: Vec<Group>)
    ensures
        groups(table@) == by_identifier(entries@),
{
    let mut table: Vec<Group> = Vec::new();
    let mut i: usize = 0;
    proof {
        assert(groups(table@) =~= by_identifier(entries@.take(0)));
    }
    while i < entries.len()
        invariant
            i <= entries.len(),
            groups(table@) == by_identifier(entries@.take(i as int)),
        decreases entries.len() - i,
    {
        proof {
            assert(entries@.take(i + 1).drop_last() =~= entries@.take(i as int));
        }
        let entry = &entries[i];
        let key = String::from_str(field_or(&entry.syslog_identifier, "unknown"));
        add_line(&mut table, key, format_group_line(entry));
        i += 1;
    }
    proof {
        assert(entries@.take(entries@.len() as int) =~= entries@);
    }
    table
}

/// Lists the entries under the kinds of their events.
pub fn scan_entries(entries: &[JournalEntry]) -> (table: Vec<Group>)
    ensures
        groups(table@) == by_kind(entries@),
{
    let mut table: Vec<Group> = Vec::new();
    let mut i: usize = 0;
    proof {
        assert(groups(table@) =~= by_kind(entries@.take(0)));
    }
    while i < entries.len()
        invariant
            i <= entries.len(),
            groups(table@) == by_kind(entries@.take(i as int)),
        decreases entries.len() - i,
    {
        proof {
            assert(entries@.take(i + 1).drop_last() =~= entries@.take(i as int));
        }
        let entry = &entries[i];
        let key = String::from_str(event_label(classify_event(entry)));
        add_line(&mut table, key, format_scan_line(entry));
        i += 1;
    }
    proof {
        assert(entries@.take(entries@.len() as int) =~= entries@);
    }
    table
}

/// The expression that finds the address a login came from: the word
/// `from`, a blank, and four groups of one to three digits with dots
/// between them.
pub const SOURCE_PATTERN: &'static str = "from ([0-9]{1,3}(\\.[0-9]{1,3}){3})";

/// The address that a message names as the source of a login, if it names
/// one.
pub open spec fn login_source(message: Seq<char>) -> Option<Seq<char>> {
    regex_group(SOURCE_PATTERN@, message, 1)
}

/// Finds the address that a message names as the source of a login.
pub fn find_login_source(message: &str) -> (source: Option<String>)
    ensures
        optional_text(source) == login_source(message@),
{
    capture_group(SOURCE_PATTERN, message, 1)
}

/// The table of failed logins after a message has been looked at: the
/// address `source` is counted if the message, in lower case `lowered`,
/// speaks of a failure.
pub open spec fn with_failure(
    table: Seq<CountView>,
    lowered: Seq<char>,
    source: Option<Seq<char>>,
) -> Seq<CountView> {
    if has_substring(lowered, "failed"@) && source is Some {
        bumped(table, source->0)
    } else {
        table
    }
}

/// The failed logins of the entries, counted by the address they came from.
pub open spec fn ssh_failures(entries: Seq<JournalEntry>) -> Seq<CountView>
    decreases entries.len(),
{
    if entries.len() == 0 {
        Seq::<CountView>::empty()
    } else {
        let before = ssh_failures(entries.drop_last());
        match entries.last().message {
            Some(message) => with_failure(before, lowercase(message@), login_source(message@)),
            None => before,
        }
    }
}

/// Looks at one message: `lowered` is the message in lower case, `source`
/// the address it names, if any.
pub fn count_failure(table: &mut Vec<Count>, lowered: &str, source: Option<String>)
    requires
        counts_within(counts(old(table)@), (u32::MAX - 1) as nat),
    ensures
        counts(final(table)@) == with_failure(counts(old(table)@), lowered@, optional_text(source)),
{
    if str_contains(lowered, "failed") {
        match source {
            Some(address) => bump(table, address),
            None => {},
        }
    }
}

/// Counts the failed logins of the entries by the address they came from.
pub fn failed_ssh_attempts(entries: &[JournalEntry]) -> (table: Vec<Count>)
    requires
        entries@.len() < u32::MAX,
    ensures
        counts(table@) == ssh_failures(entries@),
{
    let mut table: Vec<Count> = Vec::new();
    let mut i: usize = 0;
    proof {
        assert(counts(table@) =~= ssh_failures(entries@.take(0)));
    }
    while i < entries.len()
        invariant
            i <= entries.len(),
            entries@.len() < u32::MAX,
            counts(table@) == ssh_failures(entries@.take(i as int)),
            counts_within(counts(table@), i as nat),
        decreases entries.len() - i,
    {
        let ghost before = counts(table@);
        proof {
            assert(entries@.take(i + 1).drop_last() =~= entries@.take(i as int));
        }
        match &entries[i].message {
            Some(message) => {
                let lowered = message.as_str().to_lowercase();
                let source = if str_contains(lowered.as_str(), "failed") {
                    find_login_source(message.as_str())
                } else {
                    None
                };
                proof {
                    if optional_text(source) is Some {
                        lemma_bumped_within(before, optional_text(source)->0, i as nat);
                    }
                }
                count_failure(&mut table, lowered.as_str(), source);
            },
            None => {},
        }
        i += 1;
    }
    proof {
        assert(entries@.take(entries@.len() as int) =~= entries@);
    }
    table
}

/// An entry that looks suspicious, as plain values.
pub enum SuspicionView {
    BruteforceLogin { ip: Seq<char>, attempts: nat },
    FrequentRestart { unit: Seq<char>, count: nat },
    LogTampering { msg: Seq<char> },
    SuspiciousUID0 { uid: Seq<char>, msg: Seq<char> },
    UnknownService { unit: Seq<char> },
}

/// An entry, or a number of entries, that look suspicious.
pub enum SuspiciousEvent {
    /// More than [`ALARM_THRESHOLD`] failed passwords from one address.
    BruteforceLogin { ip: String, attempts: u32 },
    /// More than [`ALARM_THRESHOLD`] starts of one unit.
    FrequentRestart { unit: String, count: u32 },
    /// The journal itself was stopped, deleted or rotated.
    LogTampering { msg: String },
    /// Something other than `root` acted under user id 0.
    SuspiciousUID0 { uid: String, msg: String },
    /// A unit that is not among the known services.
    UnknownService { unit: String },
}

impl View for SuspiciousEvent {
    type V = SuspicionView;

    open spec fn view(&self) -> SuspicionView {
        match self {
            SuspiciousEvent::BruteforceLogin { ip, attempts } => SuspicionView::BruteforceLogin {
                ip: ip@,
                attempts: *attempts as nat,
            },
            SuspiciousEvent::FrequentRestart { unit, count } => SuspicionView::FrequentRestart {
                unit: unit@,
                count: *count as nat,
            },
            SuspiciousEvent::LogTampering { msg } => SuspicionView::LogTampering { msg: msg@ },
            SuspiciousEvent::SuspiciousUID0 { uid, msg } => SuspicionView::SuspiciousUID0 {
                uid: uid@,
                msg: msg@,
            },
            SuspiciousEvent::UnknownService { unit } => SuspicionView::UnknownService {
                unit: unit@,
            },
        }
    }
}

/// The views of a list of events.
pub open spec fn suspicions(events: Seq<SuspiciousEvent>) -> Seq<SuspicionView> {
    Seq::new(events.len(), |i: int| events[i]@)
}

/// A counter must pass this number before it is reported.
pub const ALARM_THRESHOLD: u32 = 5;

/// The services that are known from the start.
pub open spec fn known_services() -> Seq<Seq<char>> {
    seq![
        "sshd.service"@,
        "cron.service"@,
        "sudo.service"@,
        "systemd-logind.service"@,
        "rsyslog.service"@,
        "network.service"@,
    ]
}

/// What is read off one entry: its message as it is (empty if missing) and
/// in lower case, the address that the lower-case message names, its unit
/// (empty if missing), its user id and its identifier.
pub struct Sighting {
    pub message: Seq<char>,
    pub lowered: Seq<char>,
    pub source: Option<Seq<char>>,
    pub unit: Seq<char>,
    pub uid: Option<Seq<char>>,
    pub identifier: Option<Seq<char>>,
}

/// What is read off `entry`.
pub open spec fn sighting(entry: JournalEntry) -> Sighting {
    let lowered = lowercase(text_or(entry.message, Seq::<char>::empty()));
    Sighting {
        message: text_or(entry.message, Seq::<char>::empty()),
        lowered,
        source: login_source(lowered),
        unit: text_or(entry.systemd_unit, Seq::<char>::empty()),
        uid: optional_text(entry.uid),
        identifier: optional_text(entry.syslog_identifier),
    }
}

/// The state of the search, as plain values.
pub struct WatchView {
    pub bruteforce: Seq<CountView>,
    pub restarts: Seq<CountView>,
    pub known: Seq<Seq<char>>,
    pub events: Seq<SuspicionView>,
}

/// Whether a message in lower case speaks of a failed password.
pub open spec fn speaks_of_failed_password(lowered: Seq<char>) -> bool {
    has_substring(lowered, "failed password"@)
}

/// Whether a message in lower case speaks of a start.
pub open spec fn speaks_of_start(lowered: Seq<char>) -> bool {
    has_substring(lowered, "started"@) || has_substring(lowered, "restarted"@)
}

/// Whether a message in lower case speaks of the journal being stopped,
/// deleted or rotated.
pub open spec fn speaks_of_tampering(lowered: Seq<char>) -> bool {
    has_substring(lowered, "journal"@) && (has_substring(lowered, "stopped"@) || has_substring(
        lowered,
        "deleted"@,
    ) || has_substring(lowered, "rotated"@))
}

/// Whether a sighting shows something other than `root` acting under user
/// id 0, other than closing a session.
pub open spec fn acts_as_root(seen: Sighting) -> bool {
    seen.uid == Some("0"@) && seen.identifier is Some && seen.identifier->0 != "root"@
        && !has_substring(seen.lowered, "session closed"@)
}

/// Whether a sighting shows a unit that is not known yet.
pub open spec fn shows_unknown_unit(known: Seq<Seq<char>>, seen: Sighting) -> bool {
    seen.unit.len() > 0 && !known.contains(seen.unit)
}

impl WatchView {
    /// The state before any entry is looked at.
    pub open spec fn start() -> WatchView {
        WatchView {
            bruteforce: Seq::<CountView>::empty(),
            restarts: Seq::<CountView>::empty(),
            known: known_services(),
            events: Seq::<SuspicionView>::empty(),
        }
    }

    /// The state after a sighting. A failed password is counted under the
    /// address it came from, a start under its unit. Tampering with the
    /// journal, action under user id 0 and a unit not known yet are
    /// reported at once, in this order; the unit is known from then on.
    pub open spec fn observed(self, seen: Sighting) -> WatchView {
        let bruteforce = if speaks_of_failed_password(seen.lowered) && seen.source is Some {
            bumped(self.bruteforce, seen.source->0)
        } else {
            self.bruteforce
        };
        let restarts = if speaks_of_start(seen.lowered) && seen.unit.len() > 0 {
            bumped(self.restarts, seen.unit)
        } else {
            self.restarts
        };
        let first = if speaks_of_tampering(seen.lowered) {
            self.events.push(SuspicionView::LogTampering { msg: seen.message })
        } else {
            self.events
        };
        let second = if acts_as_root(seen) {
            first.push(SuspicionView::SuspiciousUID0 { uid: seen.identifier->0, msg: seen.message })
        } else {
            first
        };
        if shows_unknown_unit(self.known, seen) {
            WatchView {
                bruteforce,
                restarts,
                known: self.known.push(seen.unit),
                events: second.push(SuspicionView::UnknownService { unit: seen.unit }),
            }
        } else {
            WatchView { bruteforce, restarts, known: self.known, events: second }
        }
    }

    /// What the search reports in the end: what was reported at once, then
    /// the addresses with too many failed passwords, then the units with too
    /// many starts.
    pub open spec fn verdict(self) -> Seq<SuspicionView> {
        self.events + bruteforce_alarms(self.bruteforce) + restart_alarms(self.restarts)
    }
}

/// The addresses whose counter has passed [`ALARM_THRESHOLD`].
pub open spec fn bruteforce_alarms(table: Seq<CountView>) -> Seq<SuspicionView>
    decreases table.len(),
{
    if table.len() == 0 {
        Seq::<SuspicionView>::empty()
    } else if table.last().count > ALARM_THRESHOLD {
        bruteforce_alarms(table.drop_last()).push(
            SuspicionView::BruteforceLogin { ip: table.last().key, attempts: table.last().count },
        )
    } else {
        bruteforce_alarms(table.drop_last())
    }
}

/// The units whose counter has passed [`ALARM_THRESHOLD`].
pub open spec fn restart_alarms(table: Seq<CountView>) -> Seq<SuspicionView>
    decreases table.len(),
{
    if table.len() == 0 {
        Seq::<SuspicionView>::empty()
    } else if table.last().count > ALARM_THRESHOLD {
        restart_alarms(table.drop_last()).push(
            SuspicionView::FrequentRestart { unit: table.last().key, count: table.last().count },
        )
    } else {
        restart_alarms(table.drop_last())
    }
}

/// The state of the search after the entries `entries`.
pub open spec fn watched(entries: Seq<JournalEntry>) -> WatchView
    decreases entries.len(),
{
    if entries.len() == 0 {
        WatchView::start()
    } else {
        watched(entries.drop_last()).observed(sighting(entries.last()))
    }
}

/// The search for suspicious entries.
pub struct Watch {
    pub bruteforce: Vec<Count>,
    pub restarts: Vec<Count>,
    pub known: Vec<String>,
    pub events: Vec<SuspiciousEvent>,
}

impl View for Watch {
    type V = WatchView;

    open spec fn view(&self) -> WatchView {
        WatchView {
            bruteforce: counts(self.bruteforce@),
            restarts: counts(self.restarts@),
            known: texts(self.known@),
            events: suspicions(self.events@),
        }
    }
}

/// Whether `unit` is among `known`.
fn is_known(known: &Vec<String>, unit: &str) -> (found: bool)
    ensures
        found == texts(known@).contains(unit@),
{
    let mut i: usize = 0;
    while i < known.len()
        invariant
            i <= known.len(),
            forall|k: int| 0 <= k < i ==> texts(known@)[k] != unit@,
        decreases known.len() - i,
    {
        if str_eq(known[i].as_str(), unit) {
            assert(texts(known@)[i as int] == unit@);
            return true;
        }
        i += 1;
    }
    false
}

impl Watch {
    /// Whether no counter can overflow when `room` more entries are looked
    /// at.
    pub open spec fn has_room(&self, room: nat) -> bool {
        &&& room <= u32::MAX
        &&& counts_within(self@.bruteforce, (u32::MAX - room) as nat)
        &&& counts_within(self@.restarts, (u32::MAX - room) as nat)
    }

    /// Starts a search.
    pub fn new() -> (watch: Watch)
        ensures
            watch@ == WatchView::start(),
            watch.has_room(u32::MAX as nat),
    {
        let mut known: Vec<String> = Vec::new();
        known.push(String::from_str("sshd.service"));
        known.push(String::from_str("cron.service"));
        known.push(String::from_str("sudo.service"));
        known.push(String::from_str("systemd-logind.service"));
        known.push(String::from_str("rsyslog.service"));
        known.push(String::from_str("network.service"));
        let watch = Watch {
            bruteforce: Vec::new(),
            restarts: Vec::new(),
            known,
            events: Vec::new(),
        };
        proof {
            assert(watch@.known =~= known_services());
            assert(watch@.bruteforce =~= Seq::<CountView>::empty());
            assert(watch@.restarts =~= Seq::<CountView>::empty());
            assert(watch@.events =~= Seq::<SuspicionView>::empty());
        }
        watch
    }

    /// Looks at one entry. `lowered` is its message in lower case, `source`
    /// the address that the lower-case message names, if any.
    pub fn observe(&mut self, entry: &JournalEntry, lowered: &str, source: Option<String>)
        requires
            old(self).has_room(1),
        ensures
            final(self)@ == old(self)@.observed(
                Sighting {
                    message: text_or(entry.message, Seq::<char>::empty()),
                    lowered: lowered@,
                    source: optional_text(source),
                    unit: text_or(entry.systemd_unit, Seq::<char>::empty()),
                    uid: optional_text(entry.uid),
                    identifier: optional_text(entry.syslog_identifier),
                },
            ),
            forall|room: nat| room >= 1 && old(self).has_room(room) ==> final(self).has_room(
                (room - 1) as nat,
            ),
    {
        let ghost before = self@;
        proof {
            reveal_strlit("");
            assert(""@ =~= Seq::<char>::empty());
        }
        let text = chars_of(lowered);
        let unit = field_or(&entry.systemd_unit, "");
        let message = field_or(&entry.message, "");
        if contains_text(text.as_slice(), chars_of("failed password").as_slice()) {
            match source {
                Some(address) => {
                    proof {
                        assert forall|room: nat|
                            room >= 1 && old(self).has_room(room) implies counts_within(
                            bumped(before.bruteforce, address@),
                            (u32::MAX - (room - 1)) as nat,
                        ) by {
                            lemma_bumped_within(
                                before.bruteforce,
                                address@,
                                (u32::MAX - room) as nat,
                            );
                        }
                    }
                    bump(&mut self.bruteforce, address);
                },
                None => {},
            }
        }
        if contains_text(text.as_slice(), chars_of("started").as_slice()) || contains_text(
            text.as_slice(),
            chars_of("restarted").as_slice(),
        ) {
            if !unit.is_empty() {
                proof {
                    assert forall|room: nat|
                        room >= 1 && old(self).has_room(room) implies counts_within(
                        bumped(before.restarts, unit@),
                        (u32::MAX - (room - 1)) as nat,
                    ) by {
                        lemma_bumped_within(before.restarts, unit@, (u32::MAX - room) as nat);
                    }
                }
                bump(&mut self.restarts, String::from_str(unit));
            }
        }
        let ghost events0 = suspicions(self.events@);
        if contains_text(text.as_slice(), chars_of("journal").as_slice()) && (contains_text(
            text.as_slice(),
            chars_of("stopped").as_slice(),
        ) || contains_text(text.as_slice(), chars_of("deleted").as_slice()) || contains_text(
            text.as_slice(),
            chars_of("rotated").as_slice(),
        )) {
            self.events.push(SuspiciousEvent::LogTampering { msg: String::from_str(message) });
            proof {
                assert(suspicions(self.events@) =~= events0.push(
                    SuspicionView::LogTampering { msg: message@ },
                ));
            }
        }
        let ghost events1 = suspicions(self.events@);
        let zero = match &entry.uid {
            Some(uid) => str_eq(uid.as_str(), "0"),
            None => false,
        };
        if zero {
            match &entry.syslog_identifier {
                Some(identifier) => {
                    if !str_eq(identifier.as_str(), "root") && !contains_text(
                        text.as_slice(),
                        chars_of("session closed").as_slice(),
                    ) {
                        self.events.push(
                            SuspiciousEvent::SuspiciousUID0 {
                                uid: identifier.clone(),
                                msg: String::from_str(message),
                            },
                        );
                        proof {
                            assert(suspicions(self.events@) =~= events1.push(
                                SuspicionView::SuspiciousUID0 { uid: identifier@, msg: message@ },
                            ));
                        }
                    }
                },
                None => {},
            }
        }
        let ghost events2 = suspicions(self.events@);
        let ghost known0 = texts(self.known@);
        if !unit.is_empty() && !is_known(&self.known, unit) {
            self.known.push(String::from_str(unit));
            self.events.push(SuspiciousEvent::UnknownService { unit: String::from_str(unit) });
            proof {
                assert(texts(self.known@) =~= known0.push(unit@));
                assert(suspicions(self.events@) =~= events2.push(
                    SuspicionView::UnknownService { unit: unit@ },
                ));
            }
        }
    }

    /// Ends the search and gives what it reports.
    pub fn finish(self) -> (events: Vec<SuspiciousEvent>)
        ensures
            suspicions(events@) == self@.verdict(),
    {
        let mut events = self.events;
        let bruteforce = self.bruteforce;
        let restarts = self.restarts;
        let ghost first = suspicions(events@);
        let mut i: usize = 0;
        proof {
            assert(counts(bruteforce@).take(0) =~= Seq::<CountView>::empty());
            assert(suspicions(events@) =~= first + bruteforce_alarms(counts(bruteforce@).take(0)));
        }
        while i < bruteforce.len()
            invariant
                i <= bruteforce.len(),
                suspicions(events@) == first + bruteforce_alarms(
                    counts(bruteforce@).take(i as int),
                ),
            decreases bruteforce.len() - i,
        {
            let ghost so_far = suspicions(events@);
            proof {
                assert(counts(bruteforce@).take(i + 1).drop_last() =~= counts(bruteforce@).take(
                    i as int,
                ));
                assert(counts(bruteforce@).take(i + 1).last() == bruteforce@[i as int]@);
            }
            if bruteforce[i].count > ALARM_THRESHOLD {
                events.push(
                    SuspiciousEvent::BruteforceLogin {
                        ip: bruteforce[i].key.clone(),
                        attempts: bruteforce[i].count,
                    },
                );
                proof {
                    assert(suspicions(events@) =~= so_far.push(
                        SuspicionView::BruteforceLogin {
                            ip: bruteforce@[i as int]@.key,
                            attempts: bruteforce@[i as int]@.count,
                        },
                    ));
                    assert(suspicions(events@) =~= first + bruteforce_alarms(
                        counts(bruteforce@).take(i + 1),
                    ));
                }
            }
            i += 1;
        }
        proof {
            assert(counts(bruteforce@).take(bruteforce@.len() as int) =~= counts(bruteforce@));
        }
        let ghost second = suspicions(events@);
        let mut j: usize = 0;
        proof {
            assert(counts(restarts@).take(0) =~= Seq::<CountView>::empty());
            assert(suspicions(events@) =~= second + restart_alarms(counts(restarts@).take(0)));
        }
        while j < restarts.len()
            invariant
                j <= restarts.len(),
                suspicions(events@) == second + restart_alarms(counts(restarts@).take(j as int)),
            decreases restarts.len() - j,
        {
            let ghost so_far = suspicions(events@);
            proof {
                assert(counts(restarts@).take(j + 1).drop_last() =~= counts(restarts@).take(
                    j as int,
                ));
                assert(counts(restarts@).take(j + 1).last() == restarts@[j as int]@);
            }
            if restarts[j].count > ALARM_THRESHOLD {
                events.push(
                    SuspiciousEvent::FrequentRestart {
                        unit: restarts[j].key.clone(),
                        count: restarts[j].count,
                    },
                );
                proof {
                    assert(suspicions(events@) =~= so_far.push(
                        SuspicionView::FrequentRestart {
                            unit: restarts@[j as int]@.key,
                            count: restarts@[j as int]@.count,
                        },
                    ));
                    assert(suspicions(events@) =~= second + restart_alarms(
                        counts(restarts@).take(j + 1),
                    ));
                }
            }
            j += 1;
        }
        proof {
            assert(counts(restarts@).take(restarts@.len() as int) =~= counts(restarts@));
        }
        events
    }
}

/// Searches the entries for what looks suspicious.
pub fn detect_suspicious_events(entries: &[JournalEntry]) -> (events: Vec<SuspiciousEvent>)
    requires
        entries@.len() <= u32::MAX,
    ensures
        suspicions(events@) == watched(entries@).verdict(),
{
    let mut watch = Watch::new();
    let mut i: usize = 0;
    proof {
        assert(entries@.take(0) =~= Seq::<JournalEntry>::empty());
    }
    while i < entries.len()
        invariant
            i <= entries.len(),
            entries@.len() <= u32::MAX,
            watch@ == watched(entries@.take(i as int)),
            watch.has_room((u32::MAX - i) as nat),
        decreases entries.len() - i,
    {
        proof {
            assert(entries@.take(i + 1).drop_last() =~= entries@.take(i as int));
            reveal_strlit("");
            assert(""@ =~= Seq::<char>::empty());
        }
        let entry = &entries[i];
        let lowered = field_or(&entry.message, "").to_lowercase();
        let source = if str_contains(lowered.as_str(), "failed password") {
            find_login_source(lowered.as_str())
        } else {
            None
        };
        watch.observe(entry, lowered.as_str(), source);
        i += 1;
    }
    proof {
        assert(entries@.take(entries@.len() as int) =~= entries@);
    }
    watch.finish()
}

/// The line that reports an event.
pub open spec fn suspicion_line(event: SuspicionView) -> Seq<char> {
    match event {
        SuspicionView::SuspiciousUID0 { uid, msg } => "[UID 0 Activity] "@ + uid + " ran: "@ + msg,
        SuspicionView::BruteforceLogin { ip, attempts } => "[Bruteforce] "@ + ip + " => "@
            + decimal(attempts) + " attempts"@,
        SuspicionView::FrequentRestart { unit, count } => "[Frequent Restart] "@ + unit
            + " restarted "@ + decimal(count) + " times"@,
        SuspicionView::LogTampering { msg } => "[Log Tampering] "@ + msg,
        SuspicionView::UnknownService { unit } => "[Unknown Service] "@ + unit,
    }
}

/// The report of a list of events: one line for each, each ended by a line
/// feed.
pub open spec fn suspicion_report(events: Seq<SuspicionView>) -> Seq<char>
    decreases events.len(),
{
    if events.len() == 0 {
        Seq::<char>::empty()
    } else {
        suspicion_report(events.drop_last()) + suspicion_line(events.last()) + seq!['\n']
    }
}

/// Writes the line that reports an event.
pub fn format_suspicion(event: &SuspiciousEvent) -> (line: String)
    ensures
        line@ == suspicion_line(event@),
{
    match event {
        SuspiciousEvent::SuspiciousUID0 { uid, msg } => {
            let mut line = String::from_str("[UID 0 Activity] ");
            line.append(uid.as_str());
            line.append(" ran: ");
            line.append(msg.as_str());
            line
        },
        SuspiciousEvent::BruteforceLogin { ip, attempts } => {
            let mut line = String::from_str("[Bruteforce] ");
            line.append(ip.as_str());
            line.append(" => ");
            push_decimal(&mut line, *attempts as u64);
            line.append(" attempts");
            line
        },
        SuspiciousEvent::FrequentRestart { unit, count } => {
            let mut line = String::from_str("[Frequent Restart] ");
            line.append(unit.as_str());
            line.append(" restarted ");
            push_decimal(&mut line, *count as u64);
            line.append(" times");
            line
        },
        SuspiciousEvent::LogTampering { msg } => {
            let mut line = String::from_str("[Log Tampering] ");
            line.append(msg.as_str());
            line
        },
        SuspiciousEvent::UnknownService { unit } => {
            let mut line = String::from_str("[Unknown Service] ");
            line.append(unit.as_str());
            line
        },
    }
}

/// Writes the report of a list of events. An empty report stands for
/// nothing suspicious.
pub fn format_report(events: &[SuspiciousEvent]) -> (report: String)
    ensures
        report@ == suspicion_report(suspicions(events@)),
{
    let mut report = String::new();
    let mut i: usize = 0;
    proof {
        assert(suspicions(events@).take(0) =~= Seq::<SuspicionView>::empty());
    }
    while i < events.len()
        invariant
            i <= events.len(),
            report@ == suspicion_report(suspicions(events@).take(i as int)),
        decreases events.len() - i,
    {
        proof {
            assert(suspicions(events@).take(i + 1).drop_last() =~= suspicions(events@).take(
                i as int,
            ));
            assert(suspicions(events@).take(i + 1).last() == events@[i as int]@);
        }
        let line = format_suspicion(&events[i]);
        report.append(line.as_str());
        report.push('\n');
        i += 1;
    }
    proof {
        assert(suspicions(events@).take(events@.len() as int) =~= suspicions(events@));
    }
    report
}

/// The name of the file that keeps a report made at the time `stamp`.
pub open spec fn report_file_name(stamp: Seq<char>) -> Seq<char> {
    "suspicious_events_"@ + stamp + ".log"@
}

/// Executable form of [`report_file_name`].
pub fn report_path(stamp: &str) -> (path: String)
    ensures
        path@ == report_file_name(stamp@),
{
    let mut path = String::from_str("suspicious_events_");
    path.append(stamp);
    path.append(".log");
    path
}

} // verus!
