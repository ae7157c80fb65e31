use vstd::prelude::*;
use crate::dataset::{Dataset, SpecParseError, appended};
use crate::snap::{Snap, creation_in_range};
use crate::text::{
    chars_of, concat, contains, ends_with, has_infix, has_prefix, has_suffix, parse_i64,
    parse_u64, parsed_i64, parsed_u64, split_chars, split_on, lemma_split_on_nonempty,
    starts_with, string_of, views,
};

verus! {

/// Why a command on a host failed.
#[derive(Debug, PartialEq, Eq)]
pub enum MachineError {
    /// The dataset does not exist.
    NoDataset,
    /// A snapshot name holds a character that ZFS refuses.
    IllegalZFSName,
    /// The name is already in use.
    NameAlreadyInUse,
    /// The ZFS administrative commands cannot be run on the host.
    NoZFSRuntime,
    /// The command could not be started; the text says why.
    SubprocessError(String),
    /// The command failed otherwise; the text is what it wrote to its error stream.
    ZFSCommandExecutionError(String),
    /// The command succeeded but its listing could not be read; the text is the listing.
    UnreadableListing(String),
}

/// The host that a dataset lives on.
#[derive(Debug, PartialEq, Eq)]
pub enum Machine {
    Local,
    Remote { host: String },
}

impl Machine {
    /// The host that an address names before its colon: none (empty) is the local host.
    pub fn from_str(s: &str) -> (r: Result<Machine, SpecParseError>)
        ensures
            s@.len() == 0 ==> r matches Ok(Machine::Local),
            s@.len() > 0 ==> (r matches Ok(Machine::Remote { host }) && host@ == s@),
    {
        if s.is_empty() {
            Ok(Machine::Local)
        } else {
            Ok(Machine::Remote { host: s.to_owned() })
        }
    }
}

/// What a child process's standard stream is connected to.
#[derive(Copy, Clone, Debug, PartialEq, Eq, Structural)]
pub enum StdioMode {
    /// The stream of this process.
    Inherit,
    /// A pipe to this process (or to the next process of a pipeline).
    Piped,
    /// Nothing.
    Null,
}

/// How to start a process: the program, its arguments, and its three standard streams.
#[derive(Debug)]
pub struct LaunchSpec {
    pub program: String,
    pub args: Vec<String>,
    pub stdin: StdioMode,
    pub stdout: StdioMode,
    pub stderr: StdioMode,
}

impl LaunchSpec {
    /// The program followed by its arguments.
    pub open spec fn argv(&self) -> Seq<Seq<char>> {
        seq![self.program@] + views(self.args@)
    }
}

/// The command line that runs the shell command `cmd` on host `m`: under `sh -c` locally, and
/// through `ssh <host> --` on a remote host, whose side runs it under a shell.
pub open spec fn host_argv(m: Machine, cmd: Seq<char>) -> Seq<Seq<char>> {
    match m {
        Machine::Local => seq!["sh"@, "-c"@, cmd],
        Machine::Remote { host } => seq!["ssh"@, host@, "--"@, cmd],
    }
}

/// The name of a snapshot of a dataset: `dataset@snapshot`.
pub open spec fn snap_path(ds: Seq<char>, snap: Seq<char>) -> Seq<char> {
    ds + "@"@ + snap
}

/// Index of the last `/` of `s`, or -1 when there is none.
pub open spec fn last_slash(s: Seq<char>) -> int
    decreases s.len(),
{
    if s.len() == 0 {
        -1
    } else if s.last() == '/' {
        s.len() - 1
    } else {
        last_slash(s.drop_last())
    }
}

/// A snapshot as plain values: guid, name, creation, holds.
pub open spec fn snap_row(s: Snap) -> (u64, Seq<char>, i64, u32) {
    (s.guid, s.name@, s.creation, s.holds)
}

/// The snapshot that a line of `zfs list -Hp -o name,creation,guid,userrefs` describes: four
/// tab-separated fields (more are ignored), the name being what follows the `@` of the first.
pub open spec fn listing_row(line: Seq<char>) -> Option<(u64, Seq<char>, i64, u32)> {
    let f = split_on(line, '\t');
    if f.len() < 4 || split_on(f[0], '@').len() < 2 {
        None
    } else {
        let name = split_on(f[0], '@')[1];
        match (parsed_i64(f[1]), parsed_u64(f[2]), parsed_u64(f[3])) {
            (Some(c), Some(g), Some(h)) => if creation_in_range(c) && h <= u32::MAX {
                Some((g, name, c, h as u32))
            } else {
                None
            },
            _ => None,
        }
    }
}

/// The lines of a listing, each ended by a line break.
pub open spec fn listing_lines(out: Seq<char>) -> Seq<Seq<char>> {
    split_on(out, '\n').drop_last()
}

/// A listing that reads: every line ended by a line break, and every line a snapshot.
pub open spec fn listing_ok(out: Seq<char>) -> bool {
    &&& (out.len() == 0 || out.last() == '\n')
    &&& forall|i: int| 0 <= i < listing_lines(out).len() ==> (#[trigger] listing_row(listing_lines(out)[i])) is Some
}

/// The snapshots `v` are those that the listing describes, in its order.
pub open spec fn listed(v: Seq<Snap>, out: Seq<char>) -> bool {
    &&& v.len() == listing_lines(out).len()
    &&& forall|i: int| 0 <= i < v.len() ==> Some(snap_row(#[trigger] v[i])) == listing_row(listing_lines(out)[i])
}

/// The error that a failed snapshot listing draws from what it wrote to its error stream.
pub open spec fn listing_failure(stderr: Seq<char>, e: MachineError) -> bool {
    if ends_with(stderr, "dataset does not exist\n"@) {
        e is NoDataset
    } else if starts_with(stderr, "sh: "@) {
        e is NoZFSRuntime
    } else {
        e matches MachineError::ZFSCommandExecutionError(m) && m@ == stderr
    }
}

/// The error that a failed `zfs snapshot` draws from what it wrote to its error stream.
pub open spec fn snapshot_failure_kind(stderr: Seq<char>, e: MachineError) -> bool {
    if contains(stderr, "invalid character"@) {
        e is IllegalZFSName
    } else if contains(stderr, "dataset does not exist"@) {
        e is NoDataset
    } else if contains(stderr, "dataset already exists"@) {
        e is NameAlreadyInUse
    } else {
        e matches MachineError::ZFSCommandExecutionError(m) && m@ == stderr
    }
}

fn owned(s: &str) -> (r: String)
    ensures
        r@ == s@,
{
    s.to_owned()
}

/// The snapshot that one listing line describes, if it reads.
fn parse_listing_row(line: &Vec<char>) -> (r: Option<Snap>)
    ensures
        r matches Some(s) ==> listing_row(line@) == Some(snap_row(s)),
        r is None ==> listing_row(line@) is None,
{
    let fields = split_chars(line, '\t');
    let ghost f = split_on(line@, '\t');
    if fields.len() < 4 {
        return None;
    }
    assert(fields@[0]@ == f[0] && fields@[1]@ == f[1] && fields@[2]@ == f[2] && fields@[3]@ == f[3]);
    let at = split_chars(&fields[0], '@');
    if at.len() < 2 {
        return None;
    }
    assert(at@[1]@ == split_on(f[0], '@')[1]);
    let name = string_of(&at[1]);
    let creation = parse_i64(string_of(&fields[1]).as_str());
    let guid = parse_u64(string_of(&fields[2]).as_str());
    let holds = parse_u64(string_of(&fields[3]).as_str());
    match (creation, guid, holds) {
        (Some(c), Some(g), Some(h)) => {
            if crate::snap::CREATION_MIN <= c && c <= crate::snap::CREATION_MAX && h <= 0xffff_ffff {
                Some(Snap { guid: g, name, creation: c, holds: h as u32 })
            } else {
                None
            }
        },
        _ => None,
    }
}

/// Reads the output of `zfs list -Hp -o name,creation,guid,userrefs -t snapshot -d1 <dataset>`:
/// one snapshot per line, in the order listed; `None` if a line does not read.
pub fn parse_zfs(output: &str) -> (r: Option<Vec<Snap>>)
    ensures
        r is Some <==> listing_ok(output@),
        r matches Some(v) ==> listed(v@, output@),
{
    let text = chars_of(output);
    if text.len() > 0 && text[text.len() - 1] != '\n' {
        return None;
    }
    let lines = split_chars(&text, '\n');
    let ghost ls = listing_lines(output@);
    proof {
        lemma_split_on_nonempty(output@, '\n');
    }
    assert(lines@.len() == split_on(output@, '\n').len());
    let n = lines.len() - 1;
    let mut out: Vec<Snap> = Vec::new();
    let mut i: usize = 0;
    while i < n
        invariant
            ls == listing_lines(output@),
            ls.len() == n,
            n < lines@.len(),
            lines@.map_values(|p: Vec<char>| p@) == split_on(output@, '\n'),
            i <= n,
            out@.len() == i,
            forall|k: int| 0 <= k < i ==> Some(snap_row(#[trigger] out@[k])) == listing_row(ls[k]),
            forall|k: int| 0 <= k < i ==> (#[trigger] listing_row(ls[k])) is Some,
        decreases n - i,
    {
        assert(lines@[i as int]@ == ls[i as int]);
        match parse_listing_row(&lines[i]) {
            Some(s) => {
                out.push(s);
            },
            None => {
                return None;
            },
        }
        i += 1;
    }
    Some(out)
}

/// Takes in the outcome of a snapshot listing of `ds`: on success, the snapshots that the
/// listing describes replace those of `ds`; on failure, the error that the error stream tells.
pub fn apply_snaps_listing(ds: &mut Dataset, success: bool, stdout: &str, stderr: &str) -> (r: Result<(), MachineError>)
    ensures
        success && listing_ok(stdout@) ==> r is Ok,
        r is Ok ==> success && listed(final(ds).snaps@, stdout@),
        !success ==> (r matches Err(e) && listing_failure(stderr@, e)),
        success && !listing_ok(stdout@) ==> (r matches Err(MachineError::UnreadableListing(m)) && m@ == stdout@),
        r is Err ==> final(ds).snaps@ == old(ds).snaps@,
        final(ds).fullname@ == old(ds).fullname@,
        final(ds).pool_idx == old(ds).pool_idx,
        final(ds).relative_idx == old(ds).relative_idx,
{
    if !success {
        let err = chars_of(stderr);
        if has_suffix(&err, &chars_of("dataset does not exist\n")) {
            return Err(MachineError::NoDataset);
        } else if has_prefix(&err, &chars_of("sh: ")) {
            return Err(MachineError::NoZFSRuntime);
        } else {
            return Err(MachineError::ZFSCommandExecutionError(owned(stderr)));
        }
    }
    match parse_zfs(stdout) {
        Some(snaps) => {
            ds.snaps = snaps;
            Ok(())
        },
        None => Err(MachineError::UnreadableListing(owned(stdout))),
    }
}

/// The error that a failed `zfs snapshot` draws from what it wrote to its error stream.
pub fn snapshot_failure(stderr: &str) -> (r: MachineError)
    ensures
        snapshot_failure_kind(stderr@, r),
{
    let err = chars_of(stderr);
    if has_infix(&err, &chars_of("invalid character")) {
        MachineError::IllegalZFSName
    } else if has_infix(&err, &chars_of("dataset does not exist")) {
        MachineError::NoDataset
    } else if has_infix(&err, &chars_of("dataset already exists")) {
        MachineError::NameAlreadyInUse
    } else {
        MachineError::ZFSCommandExecutionError(owned(stderr))
    }
}


/// The shell command that lists the snapshots of a dataset, oldest first.
pub open spec fn list_text(ds: Seq<char>) -> Seq<char> {
    "zfs list -Hp -o name,creation,guid,userrefs -t snapshot -d1 "@ + ds
}

/// The shell command that sends, from snapshot `from` on, every snapshot of `ds` up to `to`
/// (only the delta between the two with `simple`).
pub open spec fn incremental_send_text(ds: Seq<char>, from: Seq<char>, to: Seq<char>, simple: bool) -> Seq<char> {
    "zfs send -vP -cpLe"@ + (if simple { "i"@ } else { "I"@ }) + " @"@ + from + " "@ + snap_path(ds, to)
}

/// The shell command that sends snapshot `snap` of `ds` in full.
pub open spec fn full_send_text(ds: Seq<char>, snap: Seq<char>) -> Seq<char> {
    "zfs send -vP -cpLe "@ + snap_path(ds, snap)
}

/// The shell command that receives a stream into `ds`, resumably, rolling back with `rollback`.
pub open spec fn recv_text(ds: Seq<char>, rollback: bool) -> Seq<char> {
    "zfs recv -s "@ + (if rollback { "-F"@ } else { ""@ }) + " "@ + ds
}

/// The shell command that takes snapshot `name` of `ds`.
pub open spec fn snapshot_text(ds: Seq<char>, name: Seq<char>) -> Seq<char> {
    "zfs snapshot "@ + snap_path(ds, name)
}

/// The shell command that creates `parent` and the datasets above it.
pub open spec fn create_parents_text(parent: Seq<char>) -> Seq<char> {
    "zfs create -p "@ + parent
}

/// Index of the last `/` of `v`, or its length when there is none.
fn find_last_slash(v: &Vec<char>) -> (r: usize)
    ensures
        last_slash(v@) < 0 ==> r == v.len(),
        last_slash(v@) >= 0 ==> r == last_slash(v@),
{
    let mut last: usize = v.len();
    let mut i: usize = 0;
    while i < v.len()
        invariant
            i <= v.len(),
            last_slash(v@.subrange(0, i as int)) < 0 ==> last == v.len(),
            last_slash(v@.subrange(0, i as int)) >= 0 ==> last == last_slash(v@.subrange(0, i as int)),
        decreases v.len() - i,
    {
        assert(v@.subrange(0, i + 1).drop_last() =~= v@.subrange(0, i as int));
        if v[i] == '/' {
            last = i;
        }
        i += 1;
    }
    assert(v@.subrange(0, v.len() as int) =~= v@);
    last
}

proof fn lemma_last_slash(s: Seq<char>)
    ensures
        -1 <= last_slash(s) < s.len(),
        last_slash(s) >= 0 ==> s[last_slash(s)] == '/',
        (exists|i: int| 0 <= i < s.len() && s[i] == '/') ==> last_slash(s) >= 0,
    decreases s.len(),
{
    if s.len() > 0 {
        lemma_last_slash(s.drop_last());
        if exists|i: int| 0 <= i < s.len() && s[i] == '/' {
            let i = choose|i: int| 0 <= i < s.len() && s[i] == '/';
            if s.last() != '/' {
                assert(s.drop_last()[i] == '/');
            }
        }
    }
}

impl Machine {
    /// How to run the shell command `command` on this host: under `sh -c` locally, through
    /// `ssh <host> --` remotely. The three streams are inherited.
    pub fn prepare_cmd(&self, command: String) -> (r: LaunchSpec)
        ensures
            r.argv() == host_argv(*self, command@),
            r.stdin == StdioMode::Inherit,
            r.stdout == StdioMode::Inherit,
            r.stderr == StdioMode::Inherit,
    {
        let mut args: Vec<String> = Vec::new();
        let program = match self {
            Machine::Local => {
                args.push(owned("-c"));
                owned("sh")
            },
            Machine::Remote { host } => {
                args.push(host.clone());
                args.push(owned("--"));
                owned("ssh")
            },
        };
        args.push(command);
        let r = LaunchSpec {
            program,
            args,
            stdin: StdioMode::Inherit,
            stdout: StdioMode::Inherit,
            stderr: StdioMode::Inherit,
        };
        assert(r.argv() =~= host_argv(*self, command@));
        r
    }

    /// The command that lists the snapshots of `ds`; its output and error streams are captured.
    pub fn list_snaps_cmd(&self, ds: &Dataset) -> (r: LaunchSpec)
        ensures
            r.argv() == host_argv(*self, list_text(ds.fullname@)),
            r.stdin == StdioMode::Inherit,
            r.stdout == StdioMode::Piped,
            r.stderr == StdioMode::Piped,
    {
        let text = concat("zfs list -Hp -o name,creation,guid,userrefs -t snapshot -d1 ", ds.fullname());
        let mut r = self.prepare_cmd(text);
        r.stdout = StdioMode::Piped;
        r.stderr = StdioMode::Piped;
        r
    }

    /// The command that sends every snapshot of `ds` after `s` up to the newest (only the delta
    /// from `s` to the newest with `simple_incremental`); its output and error streams are piped.
    /// `s` must not be the newest snapshot.
    pub fn send_from_s_till_newest(&self, ds: &Dataset, s: &Snap, simple_incremental: bool) -> (r: LaunchSpec)
        requires
            ds.snaps@.len() > 0,
            ds.snaps@.last().guid != s.guid,
        ensures
            r.argv() == host_argv(*self, incremental_send_text(ds.fullname@, s.name@, ds.snaps@.last().name@, simple_incremental)),
            r.stdin == StdioMode::Inherit,
            r.stdout == StdioMode::Piped,
            r.stderr == StdioMode::Piped,
    {
        let newest = &ds.snaps[ds.snaps.len() - 1];
        let flag = if simple_incremental { "i" } else { "I" };
        let mut text = concat("zfs send -vP -cpLe", flag);
        text.append(" @");
        text.append(s.name.as_str());
        text.append(" ");
        text.append(ds.fullname());
        text.append("@");
        text.append(newest.name.as_str());
        assert(text@ =~= incremental_send_text(ds.fullname@, s.name@, ds.snaps@.last().name@, simple_incremental));
        let mut r = self.prepare_cmd(text);
        r.stdout = StdioMode::Piped;
        r.stderr = StdioMode::Piped;
        r
    }

    /// The command that sends snapshot `s` of `ds` in full; its output and error streams are
    /// piped.
    pub fn fullsend_s(&self, ds: &Dataset, s: &Snap) -> (r: LaunchSpec)
        ensures
            r.argv() == host_argv(*self, full_send_text(ds.fullname@, s.name@)),
            r.stdin == StdioMode::Inherit,
            r.stdout == StdioMode::Piped,
            r.stderr == StdioMode::Piped,
    {
        let mut text = concat("zfs send -vP -cpLe ", ds.fullname());
        text.append("@");
        text.append(s.name.as_str());
        assert(text@ =~= full_send_text(ds.fullname@, s.name@));
        let mut r = self.prepare_cmd(text);
        r.stdout = StdioMode::Piped;
        r.stderr = StdioMode::Piped;
        r
    }

    /// The command that receives a stream into `ds` (rolling back with `rollback`): its input is
    /// piped, its output discarded, its error stream inherited.
    pub fn recv(&self, ds: &Dataset, rollback: bool) -> (r: LaunchSpec)
        ensures
            r.argv() == host_argv(*self, recv_text(ds.fullname@, rollback)),
            r.stdin == StdioMode::Piped,
            r.stdout == StdioMode::Null,
            r.stderr == StdioMode::Inherit,
    {
        let flag = if rollback { "-F" } else { "" };
        let mut text = concat("zfs recv -s ", flag);
        text.append(" ");
        text.append(ds.fullname());
        assert(text@ =~= recv_text(ds.fullname@, rollback));
        let mut r = self.prepare_cmd(text);
        r.stdin = StdioMode::Piped;
        r.stdout = StdioMode::Null;
        r
    }

    /// The command that takes snapshot `name` of `ds`; its output and error streams are captured.
    pub fn create_snap_cmd(&self, ds: &Dataset, name: &str) -> (r: LaunchSpec)
        ensures
            r.argv() == host_argv(*self, snapshot_text(ds.fullname@, name@)),
            r.stdin == StdioMode::Inherit,
            r.stdout == StdioMode::Piped,
            r.stderr == StdioMode::Piped,
    {
        let mut text = concat("zfs snapshot ", ds.fullname());
        text.append("@");
        text.append(name);
        assert(text@ =~= snapshot_text(ds.fullname@, name@));
        let mut r = self.prepare_cmd(text);
        r.stdout = StdioMode::Piped;
        r.stderr = StdioMode::Piped;
        r
    }

    /// The command that creates the parent of `ds` and the datasets above it; its output and
    /// error streams are captured. `ds` must not be a pool root.
    pub fn create_ancestors_cmd(&self, ds: &Dataset) -> (r: LaunchSpec)
        requires
            ds.wf(),
            exists|i: int| 0 <= i < ds.fullname@.len() && ds.fullname@[i] == '/',
        ensures
            r.argv() == host_argv(*self, create_parents_text(ds.fullname@.subrange(0, last_slash(ds.fullname@)))),
            r.stdin == StdioMode::Inherit,
            r.stdout == StdioMode::Piped,
            r.stderr == StdioMode::Piped,
    {
        let name = chars_of(ds.fullname());
        proof {
            lemma_last_slash(ds.fullname@);
        }
        let idx = find_last_slash(&name);
        let parent = crate::text::string_of_range(&name, 0, idx);
        let text = concat("zfs create -p ", parent.as_str());
        let mut r = self.prepare_cmd(text);
        r.stdout = StdioMode::Piped;
        r.stderr = StdioMode::Piped;
        r
    }

    /// The host's name as shown to a user: `localhost`, or the remote host.
    pub fn display_name(&self) -> (r: String)
        ensures
            self is Local ==> r@ == "localhost"@,
            self matches Machine::Remote { host } ==> r@ == host@,
    {
        match self {
            Machine::Local => owned("localhost"),
            Machine::Remote { host } => host.clone(),
        }
    }
}

} // verus!
