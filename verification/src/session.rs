//! The recovery session: the identifier and output directory of one run,
//! its carve counter and its two flags, and the names of the files it
//! produces.

use crate::text::{decimal, push_decimal, str_eq};
use vstd::prelude::*;

verus! {

/// Largest number of files carved in one run unless `all` is set.
pub const CARVE_CAP: u64 = 10;

/// Directory under which every session directory is created.
pub const RECOVERY_ROOT: &'static str = "recovered/";

/// Flag that lifts the cap on the number of carved files.
pub const FLAG_ALL: &'static str = "--all";

/// Flag that restricts carving to the area past the reserved threshold and
/// turns the copy of live files off.
pub const FLAG_ONLY_DELETED: &'static str = "--only-deleted";

/// The output directory of the session with identifier `id`.
pub open spec fn session_dir(id: Seq<char>) -> Seq<char> {
    RECOVERY_ROOT@ + id
}

/// The name of the file that holds the carve numbered `counter`, found at
/// `offset` with extension `extension`: `file_<counter>_<offset>.<extension>`.
pub open spec fn carve_file_name(counter: nat, offset: nat, extension: Seq<char>) -> Seq<char> {
    "file_"@ + decimal(counter) + "_"@ + decimal(offset) + "."@ + extension
}

/// The path of a carved file inside the directory `dir`.
pub open spec fn carve_path(dir: Seq<char>, counter: nat, offset: nat, extension: Seq<char>) -> Seq<
    char,
> {
    dir + "/"@ + carve_file_name(counter, offset, extension)
}

/// What a session is, as plain values.
pub struct SessionView {
    pub id: Seq<char>,
    pub output_dir: Seq<char>,
    pub carved: nat,
    pub all: bool,
    pub only_deleted: bool,
}

impl SessionView {
    /// The session that a run with identifier `id` starts with.
    pub open spec fn fresh(id: Seq<char>, all: bool, only_deleted: bool) -> SessionView {
        SessionView { id, output_dir: session_dir(id), carved: 0, all, only_deleted }
    }

    /// Whether the cap on carved files has been reached.
    pub open spec fn capped(self) -> bool {
        !self.all && self.carved >= CARVE_CAP
    }

    /// The session after one more file has been carved.
    pub open spec fn with_one_more(self) -> SessionView {
        SessionView { carved: self.carved + 1, ..self }
    }
}

/// One run's output context.
pub struct RecoverySession {
    id: String,
    output_dir: String,
    carved: u64,
    all: bool,
    only_deleted: bool,
}

impl View for RecoverySession {
    type V = SessionView;

    closed spec fn view(&self) -> SessionView {
        SessionView {
            id: self.id@,
            output_dir: self.output_dir@,
            carved: self.carved as nat,
            all: self.all,
            only_deleted: self.only_deleted,
        }
    }
}

impl RecoverySession {
    /// A session's directory is derived from its identifier, its counter
    /// fits the machine, and it never passes the cap unless `all` is set.
    pub open spec fn wf(&self) -> bool {
        &&& self@.output_dir == session_dir(self@.id)
        &&& self@.carved <= u64::MAX
        &&& !self@.all ==> self@.carved <= CARVE_CAP
    }

    /// Starts the session of a run whose identifier is `id`.
    pub fn new(id: String, all: bool, only_deleted: bool) -> (session: RecoverySession)
        ensures
            session@ == SessionView::fresh(id@, all, only_deleted),
            session.wf(),
    {
        let mut output_dir = String::from_str(RECOVERY_ROOT);
        output_dir.append(id.as_str());
        RecoverySession { id, output_dir, carved: 0, all, only_deleted }
    }

    /// The identifier of the session.
    pub fn id(&self) -> (id: &str)
        ensures
            id@ == self@.id,
    {
        self.id.as_str()
    }

    /// The directory that receives the files of the session.
    pub fn output_dir(&self) -> (dir: &str)
        ensures
            dir@ == self@.output_dir,
    {
        self.output_dir.as_str()
    }

    /// The number of files carved so far.
    pub fn carved(&self) -> (n: u64)
        ensures
            n == self@.carved,
    {
        self.carved
    }

    /// Whether the cap on carved files is lifted.
    pub fn all(&self) -> (all: bool)
        ensures
            all == self@.all,
    {
        self.all
    }

    /// Whether only the area past the reserved threshold is carved.
    pub fn only_deleted(&self) -> (only_deleted: bool)
        ensures
            only_deleted == self@.only_deleted,
    {
        self.only_deleted
    }

    /// Whether the cap on carved files has been reached.
    pub fn capped(&self) -> (capped: bool)
        ensures
            capped == self@.capped(),
    {
        !self.all && self.carved >= CARVE_CAP
    }

    /// Whether the live files of the image are copied once scanning is over:
    /// they are unless the run is restricted to deleted content.
    pub fn wants_live_copy(&self) -> (wanted: bool)
        ensures
            wanted == !self@.only_deleted,
    {
        !self.only_deleted
    }

    /// The path of the next carved file, for a hit at `offset` with
    /// extension `extension`.
    pub fn next_carve_path(&self, offset: u64, extension: &str) -> (path: String)
        ensures
            path@ == carve_path(self@.output_dir, self@.carved, offset as nat, extension@),
    {
        let mut path = self.output_dir.clone();
        path.append("/");
        path.append("file_");
        push_decimal(&mut path, self.carved);
        path.append("_");
        push_decimal(&mut path, offset);
        path.append(".");
        path.append(extension);
        proof {
            assert(path@ =~= carve_path(
                self@.output_dir,
                self@.carved,
                offset as nat,
                extension@,
            ));
        }
        path
    }

    /// Counts one more carved file.
    pub fn record_carve(&mut self)
        requires
            old(self).wf(),
            !old(self)@.capped(),
            old(self)@.carved < u64::MAX,
        ensures
            final(self)@ == old(self)@.with_one_more(),
            final(self).wf(),
    {
        self.carved = self.carved + 1;
    }
}

/// Sessions with different identifiers have different output directories.
pub proof fn lemma_session_dirs_differ(first: Seq<char>, second: Seq<char>)
    requires
        first != second,
    ensures
        session_dir(first) != session_dir(second),
{
    let root = RECOVERY_ROOT@;
    assert(session_dir(first).skip(root.len() as int) =~= first);
    assert(session_dir(second).skip(root.len() as int) =~= second);
}

/// Whether an argument is one of the two flags.
pub open spec fn is_flag(arg: Seq<char>) -> bool {
    arg == FLAG_ALL@ || arg == FLAG_ONLY_DELETED@
}

/// The last argument that is not a flag, or the empty text if there is none.
pub open spec fn last_target(args: Seq<String>) -> Seq<char>
    decreases args.len(),
{
    if args.len() == 0 {
        Seq::<char>::empty()
    } else if is_flag(args.last()@) {
        last_target(args.drop_last())
    } else {
        args.last()@
    }
}

/// Whether some argument is the flag `flag`.
pub open spec fn has_flag(args: Seq<String>, flag: Seq<char>) -> bool {
    exists|i: int| 0 <= i < args.len() && (#[trigger] args[i])@ == flag
}

/// What a command line asks for, as plain values.
pub struct RequestView {
    pub target: Seq<char>,
    pub all: bool,
    pub only_deleted: bool,
}

/// The arguments that follow the names of the program and of the command.
pub open spec fn operands(args: Seq<String>) -> Seq<String> {
    if args.len() > 2 {
        args.skip(2)
    } else {
        Seq::<String>::empty()
    }
}

/// What the command line `args` asks for. The first two arguments name the
/// program and the command; flags and target follow in any order. A command
/// line with neither a target nor `--all` asks for nothing.
pub open spec fn carve_request(args: Seq<String>) -> Option<RequestView> {
    let rest = operands(args);
    let target = last_target(rest);
    let all = has_flag(rest, FLAG_ALL@);
    if target.len() == 0 && !all {
        None
    } else {
        Some(RequestView { target, all, only_deleted: has_flag(rest, FLAG_ONLY_DELETED@) })
    }
}

/// A request to carve the device or image `target`.
pub struct CarveRequest {
    pub target: String,
    pub all: bool,
    pub only_deleted: bool,
}

impl View for CarveRequest {
    type V = RequestView;

    open spec fn view(&self) -> RequestView {
        RequestView { target: self.target@, all: self.all, only_deleted: self.only_deleted }
    }
}

/// The view of an optional request.
pub open spec fn request_view(request: Option<CarveRequest>) -> Option<RequestView> {
    match request {
        Some(r) => Some(r@),
        None => None,
    }
}

/// Reads the command line of the carve command. `None` stands for a command
/// line that names no target and does not set `--all`: the caller prints the
/// usage and carves nothing.
pub fn parse_carve_args(args: &[String]) -> (request: Option<CarveRequest>)
    ensures
        request_view(request) == carve_request(args@),
{
    let mut target = String::new();
    let mut all = false;
    let mut only_deleted = false;
    let ghost rest = operands(args@);
    let mut i: usize = 2;
    while i < args.len()
        invariant
            2 <= i,
            i <= args.len() || args.len() < 2,
            rest == operands(args@),
            i <= args.len() ==> target@ == last_target(rest.take(i - 2)),
            i <= args.len() ==> all == has_flag(rest.take(i - 2), FLAG_ALL@),
            i <= args.len() ==> only_deleted == has_flag(rest.take(i - 2), FLAG_ONLY_DELETED@),
            args.len() < 2 ==> target@.len() == 0 && !all && !only_deleted,
        decreases args.len() - i,
    {
        let arg = &args[i];
        let ghost before = rest.take(i - 2);
        let ghost after = rest.take(i - 1);
        proof {
            assert(after.drop_last() =~= before);
            assert(after.last() == args@[i as int]);
            reveal_strlit("--all");
            reveal_strlit("--only-deleted");
            assert(FLAG_ALL@ != FLAG_ONLY_DELETED@) by {
                assert(FLAG_ALL@.len() == 5);
                assert(FLAG_ONLY_DELETED@.len() == 14);
            }
            assert forall|flag: Seq<char>| has_flag(after, flag) <==> (has_flag(before, flag)
                || args@[i as int]@ == flag) by {
                if has_flag(before, flag) {
                    let k = choose|k: int| 0 <= k < before.len() && (#[trigger] before[k])@ == flag;
                    assert(after[k] == before[k]);
                }
                if args@[i as int]@ == flag {
                    assert(after[i - 2]@ == flag);
                }
                if has_flag(after, flag) {
                    let k = choose|k: int| 0 <= k < after.len() && (#[trigger] after[k])@ == flag;
                    if k < before.len() {
                        assert(before[k] == after[k]);
                    }
                }
            }
        }
        if str_eq(arg.as_str(), FLAG_ALL) {
            all = true;
        } else if str_eq(arg.as_str(), FLAG_ONLY_DELETED) {
            only_deleted = true;
        } else {
            target = arg.clone();
        }
        i += 1;
    }
    proof {
        if args.len() >= 2 {
            assert(rest.take(args.len() - 2) =~= rest);
        } else {
            assert(!has_flag(rest, FLAG_ALL@));
            assert(!has_flag(rest, FLAG_ONLY_DELETED@));
        }
    }
    if target.as_str().is_empty() && !all {
        None
    } else {
        Some(CarveRequest { target, all, only_deleted })
    }
}

} // verus!
