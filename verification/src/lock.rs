//! Lock files that name their owner: how one is taken, and by whom it may be
//! removed. Who reads and writes the file is told what to do next, and reports
//! back what came of it.
use vstd::prelude::*;

use crate::text;

verus! {

#[derive(Debug, Clone)]
pub enum LockError {
    /// Another live process holds this lock. Returns its pid.
    Held { pid: u32 },
    /// Filesystem / serialization failure.
    Io(String),
}

pub ghost enum LockErrorView {
    Held { pid: u32 },
    Io(Seq<char>),
}

impl View for LockError {
    type V = LockErrorView;

    open spec fn view(&self) -> LockErrorView {
        match self {
            LockError::Held { pid } => LockErrorView::Held { pid: *pid },
            LockError::Io(msg) => LockErrorView::Io(msg@),
        }
    }
}

impl LockError {
    pub fn message(&self) -> (r: String)
        ensures
            r@ == (match self@ {
                LockErrorView::Held { pid } => "locked by PID "@ + text::decimal(pid as nat),
                LockErrorView::Io(msg) => msg,
            }),
    {
        match self {
            LockError::Held { pid } => {
                let mut r = "locked by PID ".to_owned();
                let n = text::to_decimal(*pid as u64);
                r.append(n.as_str());
                r
            },
            LockError::Io(msg) => msg.clone(),
        }
    }
}

/// What became of a signal-less `kill` on a process.
#[derive(Debug, Clone, Copy, PartialEq, Eq, Structural)]
pub enum Probe {
    /// The process is there.
    Delivered,
    /// The process is there, but belongs to somebody else.
    NotPermitted,
    /// Anything else: there is no such process.
    Failed,
}

pub open spec fn alive(pid: u32, probe: Probe) -> bool {
    pid != 0 && probe != Probe::Failed
}

/// Whether a process lives, by what the probe of its pid gave. A process that
/// must not be signalled counts as alive; pid zero never does.
pub fn is_pid_alive(pid: u32, probe: Probe) -> (r: bool)
    ensures
        r == alive(pid, probe),
{
    if pid == 0 {
        return false;
    }
    match probe {
        Probe::Delivered | Probe::NotPermitted => true,
        Probe::Failed => false,
    }
}

/// What is to be done next to take a lock.
#[derive(Debug, Clone)]
pub enum Step {
    /// Create the directory of the lock file.
    MakeDir,
    /// Create the lock file, which must not exist yet.
    Create,
    /// Write our record into the file just created.
    WriteNew,
    /// Read the record of the existing file.
    ReadExisting,
    /// See whether this process lives.
    ProbeOwner(u32),
    /// Write our record over one that cannot be read.
    OverwriteCorrupt,
    /// Write our record over that of a dead process.
    StealStale,
    /// Nothing: the lock is ours.
    Acquired,
    /// Nothing: the lock is not to be had.
    Refused(LockError),
}

/// What came of a step.
#[derive(Debug, Clone)]
pub enum Reply {
    Done,
    /// The file was there already.
    Exists,
    /// The pid in the file, none where the file holds no record.
    Record(Option<u32>),
    Probed(Probe),
    Error(String),
}

pub ghost enum StepView {
    MakeDir,
    Create,
    WriteNew,
    ReadExisting,
    ProbeOwner(u32),
    OverwriteCorrupt,
    StealStale,
    Acquired,
    Refused(LockErrorView),
}

pub ghost enum ReplyView {
    Done,
    Exists,
    Record(Option<u32>),
    Probed(Probe),
    Error(Seq<char>),
}

impl View for Step {
    type V = StepView;

    open spec fn view(&self) -> StepView {
        match self {
            Step::MakeDir => StepView::MakeDir,
            Step::Create => StepView::Create,
            Step::WriteNew => StepView::WriteNew,
            Step::ReadExisting => StepView::ReadExisting,
            Step::ProbeOwner(pid) => StepView::ProbeOwner(*pid),
            Step::OverwriteCorrupt => StepView::OverwriteCorrupt,
            Step::StealStale => StepView::StealStale,
            Step::Acquired => StepView::Acquired,
            Step::Refused(e) => StepView::Refused(e@),
        }
    }
}

impl View for Reply {
    type V = ReplyView;

    open spec fn view(&self) -> ReplyView {
        match self {
            Reply::Done => ReplyView::Done,
            Reply::Exists => ReplyView::Exists,
            Reply::Record(p) => ReplyView::Record(*p),
            Reply::Probed(p) => ReplyView::Probed(*p),
            Reply::Error(e) => ReplyView::Error(e@),
        }
    }
}

/// What an error in a step is called.
pub open spec fn failure(s: StepView, e: Seq<char>) -> StepView {
    let what = match s {
        StepView::MakeDir => "mkdir "@,
        StepView::Create => "create lock: "@,
        StepView::WriteNew => "write lock: "@,
        StepView::ReadExisting => "read existing lock: "@,
        StepView::OverwriteCorrupt => "overwrite corrupt lock: "@,
        _ => "steal stale lock: "@,
    };
    StepView::Refused(LockErrorView::Io(what + e))
}

/// The step after `s`, given what came of it. A reply that does not belong to
/// the step changes nothing.
pub open spec fn after(s: StepView, r: ReplyView) -> StepView {
    match (s, r) {
        (StepView::MakeDir, ReplyView::Done) => StepView::Create,
        (StepView::Create, ReplyView::Done) => StepView::WriteNew,
        (StepView::Create, ReplyView::Exists) => StepView::ReadExisting,
        (StepView::WriteNew, ReplyView::Done) => StepView::Acquired,
        (StepView::ReadExisting, ReplyView::Record(Some(pid))) => StepView::ProbeOwner(pid),
        (StepView::ReadExisting, ReplyView::Record(None)) => StepView::OverwriteCorrupt,
        (StepView::ProbeOwner(pid), ReplyView::Probed(p)) => if alive(pid, p) {
            StepView::Refused(LockErrorView::Held { pid })
        } else {
            StepView::StealStale
        },
        (StepView::OverwriteCorrupt, ReplyView::Done) => StepView::Acquired,
        (StepView::StealStale, ReplyView::Done) => StepView::Acquired,
        (StepView::ProbeOwner(_), ReplyView::Error(_)) => s,
        (StepView::Acquired, _) => s,
        (StepView::Refused(_), _) => s,
        (_, ReplyView::Error(e)) => failure(s, e),
        _ => s,
    }
}

fn refuse(what: &str, e: &str) -> (r: Step)
    ensures
        r@ == StepView::Refused(LockErrorView::Io(what@ + e@)),
{
    let mut m = what.to_owned();
    m.append(e);
    Step::Refused(LockError::Io(m))
}

pub fn next_step(s: Step, r: Reply) -> (n: Step)
    ensures
        n@ == after(s@, r@),
{
    match (s, r) {
        (Step::MakeDir, Reply::Done) => Step::Create,
        (Step::MakeDir, Reply::Error(e)) => refuse("mkdir ", e.as_str()),
        (Step::Create, Reply::Done) => Step::WriteNew,
        (Step::Create, Reply::Exists) => Step::ReadExisting,
        (Step::Create, Reply::Error(e)) => refuse("create lock: ", e.as_str()),
        (Step::WriteNew, Reply::Done) => Step::Acquired,
        (Step::WriteNew, Reply::Error(e)) => refuse("write lock: ", e.as_str()),
        (Step::ReadExisting, Reply::Record(Some(pid))) => Step::ProbeOwner(pid),
        (Step::ReadExisting, Reply::Record(None)) => Step::OverwriteCorrupt,
        (Step::ReadExisting, Reply::Error(e)) => refuse("read existing lock: ", e.as_str()),
        (Step::ProbeOwner(pid), Reply::Probed(p)) => if is_pid_alive(pid, p) {
            Step::Refused(LockError::Held { pid })
        } else {
            Step::StealStale
        },
        (Step::OverwriteCorrupt, Reply::Done) => Step::Acquired,
        (Step::OverwriteCorrupt, Reply::Error(e)) => refuse(
            "overwrite corrupt lock: ",
            e.as_str(),
        ),
        (Step::StealStale, Reply::Done) => Step::Acquired,
        (Step::StealStale, Reply::Error(e)) => refuse("steal stale lock: ", e.as_str()),
        (s, _) => s,
    }
}

// ---------------------------------------------------------------------------
// A lock that is held
// ---------------------------------------------------------------------------
/// How a lock file is found.
#[derive(Debug, Clone)]
pub enum LockSeen {
    /// There is no such file.
    Missing,
    /// The pid in its record, none where it holds no record.
    Record(Option<u32>),
    /// It is there, but cannot be read.
    Unreadable(String),
}

pub ghost enum LockSeenView {
    Missing,
    Record(Option<u32>),
    Unreadable(Seq<char>),
}

impl View for LockSeen {
    type V = LockSeenView;

    open spec fn view(&self) -> LockSeenView {
        match self {
            LockSeen::Missing => LockSeenView::Missing,
            LockSeen::Record(p) => LockSeenView::Record(*p),
            LockSeen::Unreadable(e) => LockSeenView::Unreadable(e@),
        }
    }
}

/// The file still holds the record of its owner.
pub open spec fn ours(seen: LockSeenView, owner: u32) -> bool {
    seen == LockSeenView::Record(Some(owner))
}

pub fn is_ours(seen: &LockSeen, owner: u32) -> (r: bool)
    ensures
        r == ours(seen@, owner),
{
    match seen {
        LockSeen::Record(Some(p)) => *p == owner,
        _ => false,
    }
}

/// Why the lock is no longer its owner's: the file has disappeared, or has been
/// rewritten. A file that cannot be read just now is neither.
pub open spec fn loss(seen: LockSeenView, owner: u32) -> Option<Seq<char>> {
    match seen {
        LockSeenView::Missing => Some("lock file is gone"@),
        LockSeenView::Record(Some(p)) => if p == owner {
            None
        } else {
            Some("lock taken over by PID "@ + text::decimal(p as nat))
        },
        LockSeenView::Record(None) => Some("lock file was overwritten"@),
        LockSeenView::Unreadable(_) => None,
    }
}

pub fn lost(seen: &LockSeen, owner: u32) -> (r: Option<String>)
    ensures
        text::opt(r) == loss(seen@, owner),
{
    match seen {
        LockSeen::Missing => Some("lock file is gone".to_owned()),
        LockSeen::Record(Some(p)) => if *p == owner {
            None
        } else {
            let mut m = "lock taken over by PID ".to_owned();
            let n = text::to_decimal(*p as u64);
            m.append(n.as_str());
            Some(m)
        },
        LockSeen::Record(None) => Some("lock file was overwritten".to_owned()),
        LockSeen::Unreadable(_) => None,
    }
}

pub open spec fn failure_of(r: Result<(), String>) -> Option<Seq<char>> {
    match r {
        Ok(_) => None,
        Err(e) => Some(e@),
    }
}

/// What goes wrong when the process `owner` gives its lock back: the file cannot
/// be read, or is its own and cannot be removed. Nothing does where the file is
/// gone, or has been taken over and so stays.
pub open spec fn release_failure(
    seen: LockSeenView,
    owner: u32,
    removal: Option<Seq<char>>,
) -> Option<Seq<char>> {
    match seen {
        LockSeenView::Unreadable(e) => Some(e),
        _ => if ours(seen, owner) {
            removal
        } else {
            None
        },
    }
}

/// What comes of giving a lock back.
pub fn released(seen: LockSeen, owner: u32, removed: Result<(), String>) -> (r: Result<
    (),
    String,
>)
    ensures
        failure_of(r) == release_failure(seen@, owner, failure_of(removed)),
{
    let own = is_ours(&seen, owner);
    match seen {
        LockSeen::Unreadable(e) => Err(e),
        _ => if own {
            removed
        } else {
            Ok(())
        },
    }
}

// ---------------------------------------------------------------------------
// Laws
// ---------------------------------------------------------------------------
/// Where a sequence of replies leads.
pub open spec fn run(s: StepView, replies: Seq<ReplyView>) -> StepView
    decreases replies.len(),
{
    if replies.len() == 0 {
        s
    } else {
        after(run(s, replies.drop_last()), replies.last())
    }
}

pub open spec fn settled(s: StepView) -> bool {
    s is Acquired || s is Refused
}

proof fn lemma_settled_stays(s: StepView, replies: Seq<ReplyView>)
    requires
        settled(s),
    ensures
        run(s, replies) == s,
    decreases replies.len(),
{
    if replies.len() > 0 {
        lemma_settled_stays(s, replies.drop_last());
    }
}

/// A lock whose owner is found alive is refused, with that owner's pid, whatever
/// happens afterwards.
pub proof fn law_live_owner_keeps_the_lock(pid: u32, probe: Probe, later: Seq<ReplyView>)
    requires
        alive(pid, probe),
    ensures
        run(after(StepView::ProbeOwner(pid), ReplyView::Probed(probe)), later)
            == StepView::Refused(LockErrorView::Held { pid }),
{
    lemma_settled_stays(StepView::Refused(LockErrorView::Held { pid }), later);
}

/// Whether a lock file was made anew, held no record, or had a dead owner.
pub open spec fn entitled(replies: Seq<ReplyView>) -> bool {
    ||| replies =~= seq![ReplyView::Done, ReplyView::Done, ReplyView::Done]
    ||| replies =~= seq![
        ReplyView::Done,
        ReplyView::Exists,
        ReplyView::Record(None),
        ReplyView::Done,
    ]
    ||| exists|pid: u32, probe: Probe|
        !alive(pid, probe) && replies =~= #[trigger] stale_replies(pid, probe)
}

pub open spec fn stale_replies(pid: u32, probe: Probe) -> Seq<ReplyView> {
    seq![
        ReplyView::Done,
        ReplyView::Exists,
        ReplyView::Record(Some(pid)),
        ReplyView::Probed(probe),
        ReplyView::Done,
    ]
}

/// Each of these ways ends with the lock taken.
pub proof fn law_entitled_acquires(replies: Seq<ReplyView>)
    requires
        entitled(replies),
    ensures
        run(StepView::MakeDir, replies) is Acquired,
{
    reveal_with_fuel(run, 7);
    if exists|pid: u32, probe: Probe|
        !alive(pid, probe) && replies =~= #[trigger] stale_replies(pid, probe) {
        let (pid, probe) = choose|pid: u32, probe: Probe|
            !alive(pid, probe) && replies =~= #[trigger] stale_replies(pid, probe);
        let r1 = seq![ReplyView::Done];
        let r2 = r1.push(ReplyView::Exists);
        let r3 = r2.push(ReplyView::Record(Some(pid)));
        let r4 = r3.push(ReplyView::Probed(probe));
        assert(replies.drop_last() =~= r4);
        assert(r4.drop_last() =~= r3);
        assert(r3.drop_last() =~= r2);
        assert(r2.drop_last() =~= r1);
        assert(r1.drop_last() =~= seq![]);
        assert(run(StepView::MakeDir, r1) is Create);
    } else {
        let r1 = seq![ReplyView::Done];
        if replies.len() == 3 {
            let r2 = r1.push(ReplyView::Done);
            assert(replies.drop_last() =~= r2);
            assert(r2.drop_last() =~= r1);
            assert(r1.drop_last() =~= seq![]);
        } else {
            let r2 = r1.push(ReplyView::Exists);
            let r3 = r2.push(ReplyView::Record(None));
            assert(replies.drop_last() =~= r3);
            assert(r3.drop_last() =~= r2);
            assert(r2.drop_last() =~= r1);
            assert(r1.drop_last() =~= seq![]);
        }
    }
}

/// A process lives if it could be signalled, or if it may not be; no process has pid
/// zero.
pub proof fn law_who_is_alive(pid: u32)
    ensures
        pid != 0 ==> alive(pid, Probe::Delivered) && alive(pid, Probe::NotPermitted),
        !alive(pid, Probe::Failed),
        forall|p: Probe| !alive(0, p),
{
}

/// A lock is taken only where its file was made anew, held no record, or names a process
/// that is dead: there is no other way to it.
pub proof fn law_a_lock_is_never_taken_from_the_living(s: StepView, r: ReplyView)
    ensures
        after(s, r) is Acquired && !(s is Acquired) ==> r is Done && (s is WriteNew
            || s is OverwriteCorrupt || s is StealStale),
        after(s, r) is WriteNew && !(s is WriteNew) ==> s is Create && r is Done,
        after(s, r) is OverwriteCorrupt && !(s is OverwriteCorrupt) ==> s is ReadExisting && r
            == ReplyView::Record(None),
        after(s, r) is StealStale && !(s is StealStale) ==> s is ProbeOwner && r is Probed
            && !alive(s->ProbeOwner_0, r->Probed_0),
        after(s, r) is ProbeOwner && !(s is ProbeOwner) ==> s is ReadExisting && r
            == ReplyView::Record(Some(after(s, r)->ProbeOwner_0)),
        after(s, r) is ReadExisting && !(s is ReadExisting) ==> s is Create && r is Exists,
        after(s, r) is Create && !(s is Create) ==> s is MakeDir && r is Done,
{
}

/// What fails on the way to a lock is told, and the lock is not taken.
pub proof fn law_failures_are_told(s: StepView, e: Seq<char>)
    requires
        !settled(s),
        !(s is ProbeOwner),
    ensures
        after(s, ReplyView::Error(e)) is Refused,
        after(s, ReplyView::Error(e))->Refused_0 is Io,
        text::contains(after(s, ReplyView::Error(e))->Refused_0->Io_0, e),
{
    let m = after(s, ReplyView::Error(e))->Refused_0->Io_0;
    let none = Seq::<char>::empty();
    let what = m.take(m.len() - e.len());
    assert(m.len() >= e.len());
    assert(m =~= what + e + none);
    text::lemma_contains_within(what, e, none);
}

/// A lock is its owner's for as long as the file names the owner, or cannot be read; it
/// is lost where the file is gone or names another, and the reason names that other. Only
/// a file that names the owner is removed by it.
pub proof fn law_a_lock_is_lost_to_others_only(owner: u32, other: u32, e: Seq<char>)
    requires
        other != owner,
    ensures
        loss(LockSeenView::Record(Some(owner)), owner) is None,
        loss(LockSeenView::Unreadable(e), owner) is None,
        loss(LockSeenView::Missing, owner) is Some,
        loss(LockSeenView::Record(None), owner) is Some,
        loss(LockSeenView::Record(Some(other)), owner) is Some,
        text::contains(
            loss(LockSeenView::Record(Some(other)), owner)->Some_0,
            text::decimal(other as nat),
        ),
        ours(LockSeenView::Record(Some(owner)), owner),
        !ours(LockSeenView::Record(Some(other)), owner),
        !ours(LockSeenView::Record(None), owner),
        !ours(LockSeenView::Missing, owner),
        !ours(LockSeenView::Unreadable(e), owner),
        release_failure(LockSeenView::Record(Some(owner)), owner, Some(e)) == Some(e),
        release_failure(LockSeenView::Record(Some(owner)), owner, None) is None,
        release_failure(LockSeenView::Record(Some(other)), owner, Some(e)) is None,
        release_failure(LockSeenView::Unreadable(e), owner, None) == Some(e),
{
    let none = Seq::<char>::empty();
    let d = text::decimal(other as nat);
    let head = "lock taken over by PID "@;
    text::lemma_contains_within(head, d, none);
    assert(head + d + none =~= head + d);
}

} // verus!
