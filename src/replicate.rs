use vstd::prelude::*;
use crate::dataset::Dataset;
use crate::machine::{LaunchSpec, MachineError, StdioMode};
use crate::reconcile::{comparable, find_mrcud, has_tag, last_both, merge, snaps_comparable, Comm, MRCUD};
use crate::snap::Snap;
use crate::text::{chars_of, digits_value, views};

verus! {

/// Options of a replication.
#[derive(Clone, Debug)]
pub struct ReplicateDatasetOpts {
    /// Receive with `-F`, rolling the destination back as needed.
    pub use_rollback_flag_on_recv: bool,
    /// Go on when the destination has diverged, or would.
    pub allow_divergent_destination: bool,
    /// Create a missing destination by sending the oldest source snapshot in full first.
    pub init_nonexistent_destination: bool,
    /// Send only the delta to the newest snapshot, not the snapshots in between.
    pub simple_incremental: bool,
    /// Tell more of what is done.
    pub app_verbose: bool,
    /// Take a snapshot of the source, with this name, before sending.
    pub take_snap_now: Option<String>,
    /// Limit the transfer rate through `pv -L` to this rate.
    pub ratelimit: Option<String>,
}

/// Why a replication stops before it moves data, or fails.
#[derive(Debug, PartialEq, Eq)]
pub enum ReplicateError {
    /// The destination does not exist and creating it was not asked for.
    DestinationMissing,
    /// The destination does not exist and is a pool root, which a stream cannot create.
    DestinationIsPoolRoot,
    /// The two sides have no snapshot in common.
    NoneInCommon,
    /// The destination has snapshots after the most recent common one and the source has none.
    DestinationHasMore,
    /// The requested new source snapshot, named here, would make the two sides diverge.
    WouldDiverge { snapshot: String },
    /// The two sides have diverged after the most recent common snapshot.
    Diverged,
    /// The sending or the receiving process failed.
    StreamFailed { send_ok: bool, recv_ok: bool },
    /// The source has no snapshot to send from, or none after the one to send from.
    NoSnapshotToSend,
    /// Two distinct snapshots, one on each side, were taken at the same instant.
    IncomparableSnapshots,
    /// An event came that the replication did not wait for.
    OutOfOrder,
}

impl ReplicateError {
    /// What a user may do about the error, if anything.
    pub fn hint(&self) -> (r: &'static str)
        ensures
            (*self is WouldDiverge || *self is Diverged) ==> r@ == "pass --allow-divergent-destination"@,
            *self is DestinationHasMore ==> r@ == "perhaps send in the reverse direction"@,
            *self is DestinationMissing ==> r@ == "pass --init to send the oldest snapshot in full"@,
    {
        match self {
            ReplicateError::WouldDiverge { .. } => "pass --allow-divergent-destination",
            ReplicateError::Diverged => "pass --allow-divergent-destination",
            ReplicateError::DestinationHasMore => "perhaps send in the reverse direction",
            ReplicateError::DestinationMissing => "pass --init to send the oldest snapshot in full",
            _ => "",
        }
    }
}

/// What to do once the two sides are classified.
#[derive(Debug)]
pub enum Decision {
    /// Nothing: the two sides are up to date at this snapshot.
    UpToDate(Snap),
    /// Send incrementally from this snapshot, the most recent common one.
    SendFrom(Snap),
}

/// After listing the destination: whether it must first be created by a full send. A missing
/// destination fails unless creating it was asked for and it is not a pool root.
pub fn destination_plan(dst_existed: bool, dst: &Dataset, opts: &ReplicateDatasetOpts) -> (r: Result<bool, ReplicateError>)
    requires
        dst.wf(),
    ensures
        dst_existed ==> r == Ok::<bool, ReplicateError>(false),
        !dst_existed && !opts.init_nonexistent_destination ==> r == Err::<bool, ReplicateError>(ReplicateError::DestinationMissing),
        !dst_existed && opts.init_nonexistent_destination ==> r == (if forall|i: int| 0 <= i < dst.fullname@.len() ==> dst.fullname@[i] != '/' {
            Err::<bool, ReplicateError>(ReplicateError::DestinationIsPoolRoot)
        } else {
            Ok::<bool, ReplicateError>(true)
        }),
{
    if dst_existed {
        Ok(false)
    } else if !opts.init_nonexistent_destination {
        Err(ReplicateError::DestinationMissing)
    } else if dst.is_pool_root() {
        Err(ReplicateError::DestinationIsPoolRoot)
    } else {
        Ok(true)
    }
}

/// The bail-early table: what the classification of the two sides calls for, given whether a
/// new source snapshot will be taken and whether divergence is allowed.
pub open spec fn decides(m: MRCUD, take_snap: Option<String>, allow_divergent: bool, r: Result<Decision, ReplicateError>) -> bool {
    match m {
        MRCUD::NoneInCommon => r == Err::<Decision, ReplicateError>(ReplicateError::NoneInCommon),
        MRCUD::UpToDate(s) => if take_snap is Some {
            r matches Ok(Decision::SendFrom(t)) && t == *s
        } else {
            r matches Ok(Decision::UpToDate(t)) && t == *s
        },
        MRCUD::DestinationHasMore(s) => if take_snap is None {
            r == Err::<Decision, ReplicateError>(ReplicateError::DestinationHasMore)
        } else if !allow_divergent {
            r == Err::<Decision, ReplicateError>(ReplicateError::WouldDiverge { snapshot: take_snap->Some_0 })
        } else {
            r matches Ok(Decision::SendFrom(t)) && t == *s
        },
        MRCUD::Divergence(s) => if !allow_divergent {
            r == Err::<Decision, ReplicateError>(ReplicateError::Diverged)
        } else {
            r matches Ok(Decision::SendFrom(t)) && t == *s
        },
        MRCUD::SourceHasMore(s) => r matches Ok(Decision::SendFrom(t)) && t == *s,
    }
}

/// Decides, from the classification of source and destination, whether to stop (up to date, or
/// an error) or to send from the most recent common snapshot, which is copied out.
pub fn decide_after_mrcud(mrcud: &MRCUD, opts: &ReplicateDatasetOpts) -> (r: Result<Decision, ReplicateError>)
    ensures
        decides(*mrcud, opts.take_snap_now, opts.allow_divergent_destination, r),
{
    let take_snap = opts.take_snap_now.is_some();
    match mrcud {
        MRCUD::NoneInCommon => Err(ReplicateError::NoneInCommon),
        MRCUD::UpToDate(s) => {
            if take_snap {
                Ok(Decision::SendFrom(s.duplicate()))
            } else {
                Ok(Decision::UpToDate(s.duplicate()))
            }
        },
        MRCUD::DestinationHasMore(s) => {
            if !take_snap {
                Err(ReplicateError::DestinationHasMore)
            } else if !opts.allow_divergent_destination {
                match &opts.take_snap_now {
                    Some(name) => Err(ReplicateError::WouldDiverge { snapshot: name.clone() }),
                    None => Err(ReplicateError::DestinationHasMore),
                }
            } else {
                Ok(Decision::SendFrom(s.duplicate()))
            }
        },
        MRCUD::Divergence(s) => {
            if !opts.allow_divergent_destination {
                Err(ReplicateError::Diverged)
            } else {
                Ok(Decision::SendFrom(s.duplicate()))
            }
        },
        MRCUD::SourceHasMore(s) => Ok(Decision::SendFrom(s.duplicate())),
    }
}

/// The rate-limiter that stands between sender and receiver: `pv -q -L <rate>`, reading and
/// writing through pipes.
pub fn ratelimit_cmd(rate: &str) -> (r: LaunchSpec)
    ensures
        r.argv() == seq!["pv"@, "-q"@, "-L"@, rate@],
        r.stdin == StdioMode::Piped,
        r.stdout == StdioMode::Piped,
        r.stderr == StdioMode::Inherit,
{
    let mut args: Vec<String> = Vec::new();
    args.push("-q".to_owned());
    args.push("-L".to_owned());
    args.push(rate.to_owned());
    let r = LaunchSpec {
        program: "pv".to_owned(),
        args,
        stdin: StdioMode::Piped,
        stdout: StdioMode::Piped,
        stderr: StdioMode::Inherit,
    };
    assert(r.argv() =~= seq!["pv"@, "-q"@, "-L"@, rate@]);
    r
}

/// The digits of a rate: all of it but a final K, M, G or T.
pub open spec fn rate_digits(s: Seq<char>) -> Seq<char> {
    if s.len() > 0 && (s.last() == 'K' || s.last() == 'M' || s.last() == 'G' || s.last() == 'T') {
        s.drop_last()
    } else {
        s
    }
}

/// A rate that `pv -L` takes: decimal digits, of a value that fits in a `u64`, then at most one
/// of the suffixes K, M, G and T.
pub open spec fn pv_rate_ok(s: Seq<char>) -> bool {
    &&& rate_digits(s).len() > 0
    &&& forall|i: int| 0 <= i < rate_digits(s).len() ==> '0' <= #[trigger] rate_digits(s)[i] <= '9'
    &&& digits_value(rate_digits(s)) <= u64::MAX
}

/// Checks a rate for `pv -L`, such as `50M` or `1024`.
pub fn verify_pv_rate(rate: &str) -> (r: Result<(), ()>)
    ensures
        r is Ok <==> pv_rate_ok(rate@),
{
    let v = chars_of(rate);
    if v.len() == 0 {
        return Err(());
    }
    let last = v[v.len() - 1];
    let end = if last == 'K' || last == 'M' || last == 'G' || last == 'T' { v.len() - 1 } else { v.len() };
    if end == 0 {
        return Err(());
    }
    let mut i: usize = 0;
    while i < end
        invariant
            v@ == rate@,
            v@.len() > 0,
            end == (if v@.last() == 'K' || v@.last() == 'M' || v@.last() == 'G' || v@.last() == 'T' {
                v@.len() - 1
            } else {
                v@.len() as int
            }),
            end <= v.len(),
            i <= end,
            forall|k: int| 0 <= k < i ==> '0' <= #[trigger] v@[k] <= '9',
        decreases end - i,
    {
        if v[i] < '0' || v[i] > '9' {
            let ghost digits = rate_digits(rate@);
            assert(digits[i as int] == v@[i as int]);
            assert(!('0' <= digits[i as int] <= '9'));
            return Err(());
        }
        i += 1;
    }
    assert(end < v.len() ==> v@.subrange(0, end as int) =~= v@.drop_last());
    assert(end == v.len() ==> v@.subrange(0, end as int) =~= v@);
    let ghost digits = v@.subrange(0, end as int);
    assert(digits == rate_digits(rate@));
    // The value of the digits, until it no longer fits.
    let mut acc: u64 = 0;
    let mut over = false;
    let mut j: usize = 0;
    assert(v@.subrange(0, 0) =~= Seq::<char>::empty());
    while j < end
        invariant
            end <= v.len(),
            j <= end,
            forall|k: int| 0 <= k < end ==> '0' <= #[trigger] v@[k] <= '9',
            digits_value(v@.subrange(0, j as int)) >= 0,
            !over ==> acc as int == digits_value(v@.subrange(0, j as int)),
            over ==> digits_value(v@.subrange(0, j as int)) > u64::MAX,
        decreases end - j,
    {
        assert(v@.subrange(0, j + 1).drop_last() =~= v@.subrange(0, j as int));
        assert(v@.subrange(0, j + 1).last() == v@[j as int]);
        let d = (v[j] as u32 - '0' as u32) as u64;
        assert(d as int == v@[j as int] as int - '0' as int);
        if !over {
            let next: u128 = (acc as u128) * 10 + (d as u128);
            if next > u64::MAX as u128 {
                over = true;
            } else {
                acc = next as u64;
            }
        }
        j += 1;
    }
    if over {
        return Err(());
    }
    Ok(())
}


/// What the bail-early table calls for, stated over the merge `m` of source and destination:
/// an error; or the most recent common snapshot, with whether the two sides are up to date.
pub open spec fn plan_of(m: Seq<(Comm, Snap)>, take_snap: Option<String>, allow_divergent: bool) -> Result<(bool, Snap), ReplicateError> {
    match last_both(m) {
        None => Err(ReplicateError::NoneInCommon),
        Some(p) => {
            let s = m[p].1;
            let tail = m.subrange(p + 1, m.len() as int);
            let src_more = has_tag(tail, Comm::LEFT);
            let dst_more = has_tag(tail, Comm::RIGHT);
            if !src_more && !dst_more {
                Ok((take_snap is None, s))
            } else if src_more && !dst_more {
                Ok((false, s))
            } else if !src_more && dst_more {
                if take_snap is None {
                    Err(ReplicateError::DestinationHasMore)
                } else if !allow_divergent {
                    Err(ReplicateError::WouldDiverge { snapshot: take_snap->Some_0 })
                } else {
                    Ok((false, s))
                }
            } else if !allow_divergent {
                Err(ReplicateError::Diverged)
            } else {
                Ok((false, s))
            }
        },
    }
}

proof fn lemma_plan(m: Seq<(Comm, Snap)>, c: MRCUD, take_snap: Option<String>, allow_divergent: bool, d: Result<Decision, ReplicateError>)
    requires
        c.classifies(m),
        decides(c, take_snap, allow_divergent, d),
    ensures
        match plan_of(m, take_snap, allow_divergent) {
            Err(e) => d == Err::<Decision, ReplicateError>(e),
            Ok((true, s)) => d matches Ok(Decision::UpToDate(t)) && t == s,
            Ok((false, s)) => d matches Ok(Decision::SendFrom(t)) && t == s,
        },
{
}

/// Where a replication stands: which step it has asked for and waits on.
#[derive(Debug)]
pub enum Stage {
    ListingSource,
    ListingDestination,
    CreatingAncestors,
    TakingInitialSnapshot,
    FullSending,
    RefreshingDestination,
    /// Taking a new source snapshot, before sending from this one.
    TakingSnapshot(Snap),
    IncrementalSending,
    Finished,
}

/// What came of the step that a replication asked for.
#[derive(Debug)]
pub enum Event {
    /// The snapshots were listed (or not).
    Listed(Result<(), MachineError>),
    /// The ancestors were created, or the snapshot taken (or not).
    Completed(Result<(), MachineError>),
    /// The send/receive pipeline ended, each end with this success.
    Streamed { send_ok: bool, recv_ok: bool },
}

/// Why a replication failed: a host command, or a refusal of its own.
#[derive(Debug, PartialEq, Eq)]
pub enum ReplicateFailure {
    Host(MachineError),
    Refused(ReplicateError),
}

/// What a replication asks for next.
#[derive(Debug)]
pub enum Step {
    /// List the source's snapshots into the source dataset.
    ListSource,
    /// List the destination's snapshots into the destination dataset.
    ListDestination,
    /// Create the datasets above the destination.
    CreateAncestors,
    /// Take a snapshot of the source with this name, then list the source again.
    TakeSnapshot(String),
    /// Send the oldest source snapshot in full into the destination.
    FullSend,
    /// List the destination's snapshots again.
    RefreshDestination,
    /// Send incrementally from this snapshot to the newest of the source.
    IncrementalSend(Snap),
    /// Done: the two sides were already up to date at this snapshot.
    UpToDate(Snap),
    /// Done: the destination was brought up to date.
    Synchronized,
    /// Done: the replication failed.
    Failed(ReplicateFailure),
}

/// The state of a replication between its steps.
#[derive(Debug)]
pub struct Replication {
    pub opts: ReplicateDatasetOpts,
    pub stage: Stage,
}

/// `o` once its snapshot request has been taken up.
pub open spec fn without_snap(o: ReplicateDatasetOpts) -> ReplicateDatasetOpts {
    ReplicateDatasetOpts {
        use_rollback_flag_on_recv: o.use_rollback_flag_on_recv,
        allow_divergent_destination: o.allow_divergent_destination,
        init_nonexistent_destination: o.init_nonexistent_destination,
        simple_incremental: o.simple_incremental,
        app_verbose: o.app_verbose,
        take_snap_now: None,
        ratelimit: o.ratelimit,
    }
}

pub open spec fn refuse(o: ReplicateDatasetOpts, e: ReplicateError) -> (Stage, ReplicateDatasetOpts, Step) {
    (Stage::Finished, o, Step::Failed(ReplicateFailure::Refused(e)))
}

/// The full send, if the source has a snapshot to send.
pub open spec fn full_send_step(o: ReplicateDatasetOpts, src: Seq<Snap>) -> (Stage, ReplicateDatasetOpts, Step) {
    if src.len() > 0 {
        (Stage::FullSending, o, Step::FullSend)
    } else {
        refuse(o, ReplicateError::NoSnapshotToSend)
    }
}

/// The incremental send from `s`, if the source has a snapshot after it.
pub open spec fn incremental_step(o: ReplicateDatasetOpts, src: Seq<Snap>, s: Snap) -> (Stage, ReplicateDatasetOpts, Step) {
    if src.len() > 0 && src.last().guid != s.guid {
        (Stage::IncrementalSending, o, Step::IncrementalSend(s))
    } else {
        refuse(o, ReplicateError::NoSnapshotToSend)
    }
}

/// The step after classifying the two sides: per the bail-early table, stop, or send from the
/// most recent common snapshot (after taking the requested source snapshot, if any).
pub open spec fn classify_step(o: ReplicateDatasetOpts, src: Seq<Snap>, dst: Seq<Snap>) -> (Stage, ReplicateDatasetOpts, Step) {
    if !comparable(src, dst) {
        refuse(o, ReplicateError::IncomparableSnapshots)
    } else {
        match plan_of(merge(src, dst), o.take_snap_now, o.allow_divergent_destination) {
            Err(e) => refuse(o, e),
            Ok((true, s)) => (Stage::Finished, o, Step::UpToDate(s)),
            Ok((false, s)) => match o.take_snap_now {
                Some(name) => (Stage::TakingSnapshot(s), without_snap(o), Step::TakeSnapshot(name)),
                None => incremental_step(o, src, s),
            },
        }
    }
}

/// The step after listing the destination, by whether it exists.
pub open spec fn destination_step(o: ReplicateDatasetOpts, existed: bool, src: Seq<Snap>, dst: &Dataset) -> (Stage, ReplicateDatasetOpts, Step) {
    if existed {
        classify_step(o, src, dst.snaps@)
    } else if !o.init_nonexistent_destination {
        refuse(o, ReplicateError::DestinationMissing)
    } else if forall|i: int| 0 <= i < dst.fullname@.len() ==> dst.fullname@[i] != '/' {
        refuse(o, ReplicateError::DestinationIsPoolRoot)
    } else {
        (Stage::CreatingAncestors, o, Step::CreateAncestors)
    }
}

/// Where a replication goes from `pre` on `ev`, the two datasets being as the steps so far left
/// them: its next stage, its options, and the step it asks for.
pub open spec fn transition(pre: &Replication, ev: Event, src: &Dataset, dst: &Dataset) -> (Stage, ReplicateDatasetOpts, Step) {
    let o = pre.opts;
    match (pre.stage, ev) {
        (Stage::ListingSource, Event::Listed(Ok(()))) => (Stage::ListingDestination, o, Step::ListDestination),
        (Stage::ListingDestination, Event::Listed(Ok(()))) => destination_step(o, true, src.snaps@, dst),
        (Stage::ListingDestination, Event::Listed(Err(MachineError::NoDataset))) => destination_step(o, false, src.snaps@, dst),
        (Stage::CreatingAncestors, Event::Completed(Ok(()))) => match o.take_snap_now {
            Some(name) => (Stage::TakingInitialSnapshot, without_snap(o), Step::TakeSnapshot(name)),
            None => full_send_step(o, src.snaps@),
        },
        (Stage::TakingInitialSnapshot, Event::Completed(Ok(()))) => full_send_step(o, src.snaps@),
        (Stage::FullSending, Event::Streamed { send_ok, recv_ok }) => if send_ok && recv_ok {
            (Stage::RefreshingDestination, o, Step::RefreshDestination)
        } else {
            refuse(o, ReplicateError::StreamFailed { send_ok, recv_ok })
        },
        (Stage::RefreshingDestination, Event::Listed(Ok(()))) => classify_step(o, src.snaps@, dst.snaps@),
        (Stage::TakingSnapshot(s), Event::Completed(Ok(()))) => incremental_step(o, src.snaps@, s),
        (Stage::IncrementalSending, Event::Streamed { send_ok, recv_ok }) => if send_ok && recv_ok {
            (Stage::Finished, o, Step::Synchronized)
        } else {
            refuse(o, ReplicateError::StreamFailed { send_ok, recv_ok })
        },
        (Stage::Finished, _) => refuse(o, ReplicateError::OutOfOrder),
        (_, Event::Listed(Err(e))) => (Stage::Finished, o, Step::Failed(ReplicateFailure::Host(e))),
        (_, Event::Completed(Err(e))) => (Stage::Finished, o, Step::Failed(ReplicateFailure::Host(e))),
        _ => refuse(o, ReplicateError::OutOfOrder),
    }
}

impl Replication {
    /// A replication under `opts`, which first asks for the source's snapshots.
    pub fn new(opts: ReplicateDatasetOpts) -> (r: (Replication, Step))
        ensures
            r.0.stage is ListingSource,
            r.0.opts == opts,
            r.1 is ListSource,
    {
        (Replication { opts, stage: Stage::ListingSource }, Step::ListSource)
    }

    fn refused(&mut self, e: ReplicateError) -> (step: Step)
        ensures
            (final(self).stage, final(self).opts, step) == refuse(old(self).opts, e),
    {
        self.stage = Stage::Finished;
        Step::Failed(ReplicateFailure::Refused(e))
    }

    fn full_send(&mut self, src: &Dataset) -> (step: Step)
        ensures
            (final(self).stage, final(self).opts, step) == full_send_step(old(self).opts, src.snaps@),
    {
        if src.snaps.len() > 0 {
            self.stage = Stage::FullSending;
            Step::FullSend
        } else {
            self.refused(ReplicateError::NoSnapshotToSend)
        }
    }

    fn incremental(&mut self, src: &Dataset, s: Snap) -> (step: Step)
        ensures
            (final(self).stage, final(self).opts, step) == incremental_step(old(self).opts, src.snaps@, s),
    {
        if src.snaps.len() > 0 && src.snaps[src.snaps.len() - 1].guid != s.guid {
            self.stage = Stage::IncrementalSending;
            Step::IncrementalSend(s)
        } else {
            self.refused(ReplicateError::NoSnapshotToSend)
        }
    }

    fn classify(&mut self, src: &Dataset, dst: &Dataset) -> (step: Step)
        ensures
            (final(self).stage, final(self).opts, step) == classify_step(old(self).opts, src.snaps@, dst.snaps@),
    {
        if !snaps_comparable(src, dst) {
            return self.refused(ReplicateError::IncomparableSnapshots);
        }
        let mrcud = find_mrcud(src, dst);
        let decision = decide_after_mrcud(&mrcud, &self.opts);
        proof {
            lemma_plan(merge(src.snaps@, dst.snaps@), mrcud, self.opts.take_snap_now, self.opts.allow_divergent_destination, decision);
        }
        match decision {
            Err(e) => self.refused(e),
            Ok(Decision::UpToDate(s)) => {
                self.stage = Stage::Finished;
                Step::UpToDate(s)
            },
            Ok(Decision::SendFrom(s)) => match self.opts.take_snap_now.take() {
                Some(name) => {
                    self.stage = Stage::TakingSnapshot(s);
                    Step::TakeSnapshot(name)
                },
                None => self.incremental(src, s),
            },
        }
    }

    fn after_destination(&mut self, existed: bool, src: &Dataset, dst: &Dataset) -> (step: Step)
        requires
            dst.wf(),
        ensures
            (final(self).stage, final(self).opts, step) == destination_step(old(self).opts, existed, src.snaps@, dst),
    {
        match destination_plan(existed, dst, &self.opts) {
            Err(e) => self.refused(e),
            Ok(false) => self.classify(src, dst),
            Ok(true) => {
                self.stage = Stage::CreatingAncestors;
                Step::CreateAncestors
            },
        }
    }

    /// Takes in what came of the step asked for last, with the source and destination datasets
    /// as it left them, and tells the next step.
    pub fn advance(&mut self, event: Event, src: &Dataset, dst: &Dataset) -> (step: Step)
        requires
            dst.wf(),
        ensures
            (final(self).stage, final(self).opts, step) == transition(old(self), event, src, dst),
    {
        match (&self.stage, event) {
            (Stage::ListingSource, Event::Listed(Ok(()))) => {
                self.stage = Stage::ListingDestination;
                Step::ListDestination
            },
            (Stage::ListingDestination, Event::Listed(Ok(()))) => self.after_destination(true, src, dst),
            (Stage::ListingDestination, Event::Listed(Err(MachineError::NoDataset))) => self.after_destination(false, src, dst),
            (Stage::CreatingAncestors, Event::Completed(Ok(()))) => match self.opts.take_snap_now.take() {
                Some(name) => {
                    self.stage = Stage::TakingInitialSnapshot;
                    Step::TakeSnapshot(name)
                },
                None => self.full_send(src),
            },
            (Stage::TakingInitialSnapshot, Event::Completed(Ok(()))) => self.full_send(src),
            (Stage::FullSending, Event::Streamed { send_ok, recv_ok }) => {
                if send_ok && recv_ok {
                    self.stage = Stage::RefreshingDestination;
                    Step::RefreshDestination
                } else {
                    self.refused(ReplicateError::StreamFailed { send_ok, recv_ok })
                }
            },
            (Stage::RefreshingDestination, Event::Listed(Ok(()))) => self.classify(src, dst),
            (Stage::TakingSnapshot(s), Event::Completed(Ok(()))) => {
                let from = s.duplicate();
                self.incremental(src, from)
            },
            (Stage::IncrementalSending, Event::Streamed { send_ok, recv_ok }) => {
                if send_ok && recv_ok {
                    self.stage = Stage::Finished;
                    Step::Synchronized
                } else {
                    self.refused(ReplicateError::StreamFailed { send_ok, recv_ok })
                }
            },
            (Stage::Finished, _) => self.refused(ReplicateError::OutOfOrder),
            (_, Event::Listed(Err(e))) => {
                self.stage = Stage::Finished;
                Step::Failed(ReplicateFailure::Host(e))
            },
            (_, Event::Completed(Err(e))) => {
                self.stage = Stage::Finished;
                Step::Failed(ReplicateFailure::Host(e))
            },
            _ => self.refused(ReplicateError::OutOfOrder),
        }
    }
}

} // verus!
