//! The commands of the program: what a command line asks for.

use crate::args::{setting_value, settings, Args};
use crate::numbers::{parse_usize, parsed_usize};
use crate::text::str_eq;
use vstd::prelude::*;

verus! {

/// The commands and subcommands that have a usage of their own.
#[derive(Clone, Copy, Debug, PartialEq, Eq, Structural)]
pub enum Topic {
    Program,
    Ssl,
    Net,
    Reg,
    Systemd,
    Domain,
    Mail,
    MailScan,
    Typosquat,
    Web,
    React,
    Pdf,
    Diskinfo,
    Carve,
}

/// What a command line asks for. An argument is named by its position on
/// the command line.
#[derive(Clone, Copy, Debug, PartialEq, Eq, Structural)]
pub enum Action {
    /// Show the usage of `topic`; `fatal` says whether the program then
    /// ends as failed.
    Usage { topic: Topic, fatal: bool },
    /// Say that `topic` has no command like the argument at `word`.
    Unknown { topic: Topic, word: usize, fatal: bool },
    /// Show the help.
    Help,
    /// List the certificates of the domain at `domain`.
    SslDump { domain: usize },
    /// Hand the command line to the file commands.
    File,
    /// Log the packets on the network.
    NetLog,
    /// List the last `lines` entries of the journal, under their
    /// identifiers if `grouped`.
    Extract { lines: usize, grouped: bool },
    /// List the last `lines` entries of the journal by kind of event.
    Scan { lines: usize },
    /// Search the journal for what looks suspicious.
    Deepscan,
    /// Count the failed logins by address.
    SshFail,
    /// Read the mail set-up of the domain at `domain`.
    MailScan { domain: usize },
    /// List the look-alike names that the arguments from `first` on ask for.
    Typosquat { first: usize },
    /// Nothing to do.
    Nothing,
    /// Take apart the document at `path`.
    PdfExtract { path: usize },
    /// List the block devices.
    ListDisks,
    /// Carve the device that the command line names.
    Carve,
}

/// Number of entries that are read from the journal where the command line
/// names none.
pub const DEFAULT_LINES: usize = 100;

/// The position of the first argument that is `word`; the number of
/// arguments if there is none.
pub open spec fn position_of(args: Seq<String>, word: Seq<char>) -> int
    decreases args.len(),
{
    if args.len() == 0 || args[0]@ == word {
        0
    } else {
        1 + position_of(args.drop_first(), word)
    }
}

/// Whether an argument is `word`.
pub open spec fn has_word(args: Seq<String>, word: Seq<char>) -> bool {
    position_of(args, word) < args.len()
}

/// The number of journal entries that the command line asks for: what the
/// argument after the first `-n` spells, or [`DEFAULT_LINES`].
pub open spec fn lines_wanted(args: Seq<String>) -> usize {
    let at = position_of(args, "-n"@);
    if at + 1 < args.len() {
        match parsed_usize(args[at + 1]@) {
            Some(n) => n,
            None => DEFAULT_LINES,
        }
    } else {
        DEFAULT_LINES
    }
}

/// Finds the first argument that is `word`.
pub fn find_word(args: &[String], word: &str) -> (at: usize)
    ensures
        at == position_of(args@, word@),
        at <= args@.len(),
{
    let mut i: usize = 0;
    proof {
        assert(args@.skip(0) =~= args@);
    }
    while i < args.len()
        invariant
            i <= args.len(),
            position_of(args@, word@) == i + position_of(args@.skip(i as int), word@),
        decreases args.len() - i,
    {
        proof {
            assert(args@.skip(i as int)[0] == args@[i as int]);
            assert(args@.skip(i as int).drop_first() =~= args@.skip(i + 1));
        }
        if str_eq(args[i].as_str(), word) {
            return i;
        }
        i += 1;
    }
    i
}

/// Reads the number of journal entries that the command line asks for.
pub fn line_limit(args: &[String]) -> (lines: usize)
    ensures
        lines == lines_wanted(args@),
{
    let at = find_word(args, "-n");
    if at < args.len() && at + 1 < args.len() {
        match parse_usize(args[at + 1].as_str()) {
            Some(n) => n,
            None => DEFAULT_LINES,
        }
    } else {
        DEFAULT_LINES
    }
}

/// What the command line asks of the certificate commands.
pub open spec fn ssl_route(args: Seq<String>) -> Action {
    if args.len() < 4 {
        Action::Usage { topic: Topic::Ssl, fatal: true }
    } else if args[2]@ == "dump"@ {
        Action::SslDump { domain: 3 }
    } else {
        Action::Unknown { topic: Topic::Ssl, word: 1, fatal: false }
    }
}

/// What the command line asks of the network commands.
pub open spec fn net_route(args: Seq<String>) -> Action {
    if args.len() < 3 {
        Action::Usage { topic: Topic::Net, fatal: true }
    } else if args[2]@ == "log"@ {
        Action::NetLog
    } else {
        Action::Unknown { topic: Topic::Net, word: 1, fatal: false }
    }
}

/// What the command line asks of the journal commands.
pub open spec fn reg_route(args: Seq<String>) -> Action {
    if args.len() < 3 {
        Action::Usage { topic: Topic::Reg, fatal: false }
    } else if args[2]@ == "systemd"@ {
        if args.len() < 4 {
            Action::Usage { topic: Topic::Systemd, fatal: false }
        } else if args[3]@ == "extract"@ {
            Action::Extract { lines: lines_wanted(args), grouped: has_word(args, "-group"@) }
        } else if args[3]@ == "scan"@ {
            Action::Scan { lines: lines_wanted(args) }
        } else if args[3]@ == "deepscan"@ {
            Action::Deepscan
        } else if args[3]@ == "sshfail"@ {
            Action::SshFail
        } else {
            Action::Unknown { topic: Topic::Systemd, word: 3, fatal: false }
        }
    } else {
        Action::Unknown { topic: Topic::Reg, word: 2, fatal: false }
    }
}

/// What the command line asks of the domain commands.
pub open spec fn domain_route(args: Seq<String>) -> Action {
    if args.len() < 3 {
        Action::Usage { topic: Topic::Domain, fatal: true }
    } else if args[2]@ == "mail"@ {
        if args.len() < 4 {
            Action::Usage { topic: Topic::Mail, fatal: true }
        } else if args[3]@ == "scan"@ {
            if args.len() < 5 {
                Action::Usage { topic: Topic::MailScan, fatal: false }
            } else {
                Action::MailScan { domain: 4 }
            }
        } else {
            Action::Unknown { topic: Topic::Mail, word: 3, fatal: false }
        }
    } else if args[2]@ == "typosquat"@ {
        if args.len() < 4 {
            Action::Usage { topic: Topic::Typosquat, fatal: true }
        } else {
            Action::Typosquat { first: 3 }
        }
    } else {
        Action::Unknown { topic: Topic::Domain, word: 1, fatal: false }
    }
}

/// What the command line asks of the web commands.
pub open spec fn web_route(args: Seq<String>) -> Action {
    if args.len() < 3 {
        Action::Usage { topic: Topic::Web, fatal: true }
    } else if args[2]@ == "react"@ {
        if args.len() < 4 {
            Action::Usage { topic: Topic::React, fatal: true }
        } else {
            Action::Nothing
        }
    } else {
        Action::Unknown { topic: Topic::Web, word: 1, fatal: false }
    }
}

/// What the command line asks of the carve command: a carve, unless it is
/// too short to name a device.
pub open spec fn carve_route(args: Seq<String>) -> Action {
    if args.len() < 3 {
        Action::Usage { topic: Topic::Carve, fatal: false }
    } else {
        Action::Carve
    }
}

/// What the command line `args` asks for, the name of the program being
/// its first argument and the command its second.
pub open spec fn route(args: Seq<String>) -> Action {
    if args.len() < 2 {
        Action::Usage { topic: Topic::Program, fatal: true }
    } else if args[1]@ == "ssl"@ {
        ssl_route(args)
    } else if args[1]@ == "file"@ {
        Action::File
    } else if args[1]@ == "net"@ {
        net_route(args)
    } else if args[1]@ == "reg"@ {
        reg_route(args)
    } else if args[1]@ == "domain"@ {
        domain_route(args)
    } else if args[1]@ == "web"@ {
        web_route(args)
    } else if args[1]@ == "carve"@ {
        carve_route(args)
    } else if args[1]@ == "help"@ {
        Action::Help
    } else {
        Action::Unknown { topic: Topic::Program, word: 1, fatal: true }
    }
}

/// Whether the argument at `at` is `word`.
fn is_word(args: &[String], at: usize, word: &str) -> (same: bool)
    requires
        at < args@.len(),
    ensures
        same == (args@[at as int]@ == word@),
{
    str_eq(args[at].as_str(), word)
}

/// Reads what the command line asks of the certificate commands.
pub fn dispatch_ssl(args: &[String]) -> (action: Action)
    ensures
        action == ssl_route(args@),
{
    if args.len() < 4 {
        Action::Usage { topic: Topic::Ssl, fatal: true }
    } else if is_word(args, 2, "dump") {
        Action::SslDump { domain: 3 }
    } else {
        Action::Unknown { topic: Topic::Ssl, word: 1, fatal: false }
    }
}

/// Reads what the command line asks of the network commands.
pub fn dispatch_net(args: &[String]) -> (action: Action)
    ensures
        action == net_route(args@),
{
    if args.len() < 3 {
        Action::Usage { topic: Topic::Net, fatal: true }
    } else if is_word(args, 2, "log") {
        Action::NetLog
    } else {
        Action::Unknown { topic: Topic::Net, word: 1, fatal: false }
    }
}

/// Reads what the command line asks of the journal commands.
pub fn dispatch_reg(args: &[String]) -> (action: Action)
    ensures
        action == reg_route(args@),
{
    if args.len() < 3 {
        Action::Usage { topic: Topic::Reg, fatal: false }
    } else if is_word(args, 2, "systemd") {
        if args.len() < 4 {
            Action::Usage { topic: Topic::Systemd, fatal: false }
        } else if is_word(args, 3, "extract") {
            let grouped = find_word(args, "-group") < args.len();
            Action::Extract { lines: line_limit(args), grouped }
        } else if is_word(args, 3, "scan") {
            Action::Scan { lines: line_limit(args) }
        } else if is_word(args, 3, "deepscan") {
            Action::Deepscan
        } else if is_word(args, 3, "sshfail") {
            Action::SshFail
        } else {
            Action::Unknown { topic: Topic::Systemd, word: 3, fatal: false }
        }
    } else {
        Action::Unknown { topic: Topic::Reg, word: 2, fatal: false }
    }
}

/// Reads what the command line asks of the domain commands.
pub fn dispatch_domain(args: &[String]) -> (action: Action)
    ensures
        action == domain_route(args@),
{
    if args.len() < 3 {
        Action::Usage { topic: Topic::Domain, fatal: true }
    } else if is_word(args, 2, "mail") {
        if args.len() < 4 {
            Action::Usage { topic: Topic::Mail, fatal: true }
        } else if is_word(args, 3, "scan") {
            if args.len() < 5 {
                Action::Usage { topic: Topic::MailScan, fatal: false }
            } else {
                Action::MailScan { domain: 4 }
            }
        } else {
            Action::Unknown { topic: Topic::Mail, word: 3, fatal: false }
        }
    } else if is_word(args, 2, "typosquat") {
        if args.len() < 4 {
            Action::Usage { topic: Topic::Typosquat, fatal: true }
        } else {
            Action::Typosquat { first: 3 }
        }
    } else {
        Action::Unknown { topic: Topic::Domain, word: 1, fatal: false }
    }
}

/// Reads what the command line asks of the web commands.
pub fn dispatch_web(args: &[String]) -> (action: Action)
    ensures
        action == web_route(args@),
{
    if args.len() < 3 {
        Action::Usage { topic: Topic::Web, fatal: true }
    } else if is_word(args, 2, "react") {
        if args.len() < 4 {
            Action::Usage { topic: Topic::React, fatal: true }
        } else {
            Action::Nothing
        }
    } else {
        Action::Unknown { topic: Topic::Web, word: 1, fatal: false }
    }
}

/// Reads what the command line asks for.
pub fn dispatch(args: &[String]) -> (action: Action)
    ensures
        action == route(args@),
{
    if args.len() < 2 {
        Action::Usage { topic: Topic::Program, fatal: true }
    } else if is_word(args, 1, "ssl") {
        dispatch_ssl(args)
    } else if is_word(args, 1, "file") {
        Action::File
    } else if is_word(args, 1, "net") {
        dispatch_net(args)
    } else if is_word(args, 1, "reg") {
        dispatch_reg(args)
    } else if is_word(args, 1, "domain") {
        dispatch_domain(args)
    } else if is_word(args, 1, "web") {
        dispatch_web(args)
    } else if is_word(args, 1, "carve") {
        dispatch_carve(args)
    } else if is_word(args, 1, "help") {
        Action::Help
    } else {
        Action::Unknown { topic: Topic::Program, word: 1, fatal: true }
    }
}

/// What the command line asks of the document commands.
pub open spec fn pdf_route(args: Seq<String>) -> Action {
    if args.len() < 4 {
        Action::Usage { topic: Topic::Pdf, fatal: true }
    } else if args[2]@ == "extract"@ {
        Action::PdfExtract { path: 3 }
    } else {
        Action::Unknown { topic: Topic::Pdf, word: 1, fatal: false }
    }
}

/// Reads what the command line asks of the document commands.
pub fn dispatch_pdf(args: &[String]) -> (action: Action)
    ensures
        action == pdf_route(args@),
{
    if args.len() < 4 {
        Action::Usage { topic: Topic::Pdf, fatal: true }
    } else if is_word(args, 2, "extract") {
        Action::PdfExtract { path: 3 }
    } else {
        Action::Unknown { topic: Topic::Pdf, word: 1, fatal: false }
    }
}

/// Reads what the command line asks of the disk commands: the list of block
/// devices, unless it names a command, none of which is known.
pub fn dispatch_diskinfo(args: &[String]) -> (action: Action)
    ensures
        action == if args@.len() < 3 {
            Action::ListDisks
        } else {
            Action::Unknown { topic: Topic::Diskinfo, word: 2, fatal: true }
        },
{
    if args.len() < 3 {
        Action::ListDisks
    } else {
        Action::Unknown { topic: Topic::Diskinfo, word: 2, fatal: true }
    }
}

/// Reads what the command line asks of the carve command.
pub fn dispatch_carve(args: &[String]) -> (action: Action)
    ensures
        action == carve_route(args@),
{
    if args.len() < 3 {
        Action::Usage { topic: Topic::Carve, fatal: false }
    } else {
        Action::Carve
    }
}

/// What the settings ask of a command that works on one named setting.
#[derive(Clone, Copy, Debug, PartialEq, Eq, Structural)]
pub enum SettingAction {
    /// Show the help of the command.
    Help,
    /// Do the work.
    Run,
    /// Say that the setting is missing.
    Missing,
}

/// What the settings `args` ask of a command that works on the setting
/// `key`: help if `help` is set, the work if `key` is set.
pub open spec fn setting_route(args: Args, key: Seq<char>) -> SettingAction {
    if setting_value(settings(args.tabled@), "help"@) is Some {
        SettingAction::Help
    } else if setting_value(settings(args.tabled@), key) is Some {
        SettingAction::Run
    } else {
        SettingAction::Missing
    }
}

/// Reads what the settings ask of a command that works on the setting
/// `key`.
pub fn dispatch_setting(args: &Args, key: &str) -> (action: SettingAction)
    ensures
        action == setting_route(*args, key@),
{
    if args.contains_key("help") {
        SettingAction::Help
    } else if args.contains_key(key) {
        SettingAction::Run
    } else {
        SettingAction::Missing
    }
}

/// What the arguments ask of the download command: help if `help` is set,
/// the download of the second argument if there is one and it is not empty.
pub open spec fn gallery_route(args: Args) -> SettingAction {
    if setting_value(settings(args.tabled@), "help"@) is Some {
        SettingAction::Help
    } else if args.array@.len() >= 2 && args.array@[1]@.len() > 0 {
        SettingAction::Run
    } else {
        SettingAction::Missing
    }
}

/// Reads what the arguments ask of the download command.
pub fn dispatch_gallery(args: &Args) -> (action: SettingAction)
    ensures
        action == gallery_route(*args),
{
    if args.contains_key("help") {
        SettingAction::Help
    } else if args.array.len() >= 2 && !args.array[1].as_str().is_empty() {
        SettingAction::Run
    } else {
        SettingAction::Missing
    }
}

} // verus!
