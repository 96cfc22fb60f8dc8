//! The retention run as a state machine: the engine decides which mail
//! store command comes next from the reply to the previous one, and the
//! caller carries the commands out on its session.
use vstd::prelude::*;
use crate::compact::{compact_ids, compact_text};
use crate::date::{cutoff_date, date_literal, date_of, CivilDate};

verus! {

/// Days a read message stays in the inbox unless configured otherwise.
pub const DEFAULT_SEEN_BEFORE: u32 = 15;

/// Days an unread message stays in the inbox unless configured otherwise.
pub const DEFAULT_UNSEEN_BEFORE: u32 = 30;

/// Days a message stays in the holding mailbox beyond the unread window
/// unless configured otherwise.
pub const DEFAULT_KEEP: u32 = 30;

/// The three cleanup passes of a run, in the order in which they run.
#[derive(Clone, Copy, Debug, PartialEq, Eq, Structural)]
pub enum Pass {
    /// Read inbox messages older than the read-message window.
    Seen,
    /// Inbox messages older than the unread-message window.
    Unseen,
    /// Holding-mailbox messages older than the unread window plus the keep window.
    Purge,
}

/// Whether the server can move messages in one step; asked at most once.
#[derive(Clone, Copy, Debug, PartialEq, Eq, Structural)]
pub enum MoveSupport {
    Unknown,
    Supported,
    Unsupported,
}

/// What the engine waits for.
#[derive(Clone, Copy, Debug, PartialEq, Eq, Structural)]
pub enum Stage {
    SelectingInbox,
    Searching(Pass),
    QueryingCapabilities(Pass),
    Moving(Pass),
    Copying(Pass),
    MarkingDeleted(Pass),
    Expunging(Pass),
    SelectingHolding,
    Finished,
    Aborted,
}

/// The session operations that the engine asks for.
#[derive(Clone, Copy, Debug, PartialEq, Eq, Structural)]
pub enum Op {
    /// Select the mailbox named by the argument.
    SelectMailbox,
    /// Search the selected mailbox for the identifiers matching the argument.
    Search,
    /// Ask whether the server supports moving messages.
    QueryCapabilities,
    /// Move the identifier set of the argument to the holding mailbox.
    Move,
    /// Copy the identifier set of the argument to the holding mailbox.
    Copy,
    /// Flag the identifier set of the argument as deleted.
    MarkDeleted,
    /// Remove the messages flagged as deleted from the selected mailbox.
    Expunge,
}

#[derive(Debug)]
pub struct Command {
    pub op: Op,
    pub arg: String,
}

#[derive(Debug)]
pub enum Action {
    /// Carry out the command and hand its reply to `step`.
    Run(Command),
    /// The run is over; its failed passes are in `failed`.
    Done,
    /// The inbox could not be selected: the run cannot go on.
    Abort,
}

/// The reply of the session to the last command.
#[derive(Debug)]
pub enum Reply {
    /// A mailbox was selected; it holds this many messages.
    Selected(u32),
    /// The identifiers that a search found.
    Found(Vec<u32>),
    /// The capability answer: whether moving is supported.
    Capabilities(bool),
    /// A move, copy, flag or expunge succeeded.
    Done,
    /// The command failed.
    Failed,
}

pub struct Engine {
    pub stage: Stage,
    pub support: MoveSupport,
    /// The identifier set of the current pass, in compact notation.
    pub pending: String,
    pub seen_query: String,
    pub unseen_query: String,
    pub purge_query: String,
    /// The passes that failed so far, in order.
    pub failed: Vec<Pass>,
}

pub open spec fn next_pass(p: Pass) -> Option<Pass> {
    match p {
        Pass::Seen => Some(Pass::Unseen),
        Pass::Unseen => Some(Pass::Purge),
        Pass::Purge => None,
    }
}

/// The search predicate for messages received before the date literal
/// `date`, with a read-state term (`" SEEN"`) or none.
pub open spec fn before_query(date: Seq<char>, read_term: Seq<char>) -> Seq<char> {
    "BEFORE "@ + date + read_term
}

/// The action runs the command `op` with argument `arg`.
pub open spec fn issues(a: Action, op: Op, arg: Seq<char>) -> bool {
    a matches Action::Run(c) && c.op == op && c.arg@ == arg
}

/// The action changes the contents of a mailbox.
pub open spec fn mutates(a: Action) -> bool {
    a matches Action::Run(c) && (c.op == Op::Move || c.op == Op::Copy || c.op == Op::MarkDeleted
        || c.op == Op::Expunge)
}

impl Engine {
    pub open spec fn query(self, p: Pass) -> Seq<char> {
        match p {
            Pass::Seen => self.seen_query@,
            Pass::Unseen => self.unseen_query@,
            Pass::Purge => self.purge_query@,
        }
    }
}

/// `n` and `a` begin the pass `p`, or end the run where `p` is `None`.
pub open spec fn entered(n: Engine, a: Action, p: Option<Pass>) -> bool {
    match p {
        Some(Pass::Purge) => n.stage == Stage::SelectingHolding && issues(
            a,
            Op::SelectMailbox,
            "Trash"@,
        ),
        Some(q) => n.stage == Stage::Searching(q) && issues(a, Op::Search, n.query(q)),
        None => n.stage == Stage::Finished && a is Done,
    }
}

/// `n` and `a` act on the pending set of pass `p`: a purge flags it deleted,
/// a relocation moves it where the server supports that, and copies it
/// otherwise.
pub open spec fn relocating(n: Engine, a: Action, p: Pass) -> bool {
    if p == Pass::Purge {
        n.stage == Stage::MarkingDeleted(p) && issues(a, Op::MarkDeleted, n.pending@)
    } else if n.support == MoveSupport::Supported {
        n.stage == Stage::Moving(p) && issues(a, Op::Move, n.pending@)
    } else {
        n.support == MoveSupport::Unsupported && n.stage == Stage::Copying(p) && issues(
            a,
            Op::Copy,
            n.pending@,
        )
    }
}

/// Pass `p` is over without failure; the next one begins.
pub open spec fn advanced(o: Engine, n: Engine, a: Action, p: Pass) -> bool {
    n.failed@ == o.failed@ && entered(n, a, next_pass(p))
}

/// Pass `p` failed: it is recorded, and the next one begins all the same.
pub open spec fn failed_over(o: Engine, n: Engine, a: Action, p: Pass) -> bool {
    n.failed@ == o.failed@.push(p) && entered(n, a, next_pass(p))
}

/// One step of a run: from `o`, on `reply`, the engine becomes `n` and asks for `a`.
pub open spec fn transition(o: Engine, reply: Reply, n: Engine, a: Action) -> bool {
    &&& n.seen_query == o.seen_query
    &&& n.unseen_query == o.unseen_query
    &&& n.purge_query == o.purge_query
    &&& n.support != o.support ==> o.support == MoveSupport::Unknown && o.stage
        is QueryingCapabilities
    &&& match o.stage {
        Stage::SelectingInbox => match reply {
            Reply::Selected(k) => if k == 0 {
                n.stage == Stage::Finished && a is Done && n.failed == o.failed
            } else {
                n.failed == o.failed && entered(n, a, Some(Pass::Seen))
            },
            _ => n.stage == Stage::Aborted && a is Abort && n.failed == o.failed,
        },
        Stage::SelectingHolding => match reply {
            Reply::Selected(k) => if k == 0 {
                advanced(o, n, a, Pass::Purge)
            } else {
                n.failed == o.failed && n.stage == Stage::Searching(Pass::Purge) && issues(
                    a,
                    Op::Search,
                    o.purge_query@,
                )
            },
            _ => failed_over(o, n, a, Pass::Purge),
        },
        Stage::Searching(p) => match reply {
            Reply::Found(ids) => if ids@.len() == 0 {
                advanced(o, n, a, p)
            } else {
                &&& n.failed == o.failed
                &&& n.pending@ == compact_text(ids@, ","@)
                &&& if p != Pass::Purge && o.support == MoveSupport::Unknown {
                    n.stage == Stage::QueryingCapabilities(p) && issues(
                        a,
                        Op::QueryCapabilities,
                        seq![],
                    )
                } else {
                    n.support == o.support && relocating(n, a, p)
                }
            },
            _ => failed_over(o, n, a, p),
        },
        Stage::QueryingCapabilities(p) => match reply {
            Reply::Capabilities(b) => {
                &&& n.failed == o.failed
                &&& n.pending == o.pending
                &&& n.support == if o.support != MoveSupport::Unknown {
                    o.support
                } else if b {
                    MoveSupport::Supported
                } else {
                    MoveSupport::Unsupported
                }
                &&& relocating(n, a, p)
            },
            _ => failed_over(o, n, a, p),
        },
        Stage::Moving(p) => match reply {
            Reply::Done => advanced(o, n, a, p),
            _ => failed_over(o, n, a, p),
        },
        Stage::Copying(p) => match reply {
            Reply::Done => n.failed == o.failed && n.stage == Stage::MarkingDeleted(p) && issues(
                a,
                Op::MarkDeleted,
                o.pending@,
            ),
            _ => failed_over(o, n, a, p),
        },
        Stage::MarkingDeleted(p) => match reply {
            Reply::Done => n.failed == o.failed && n.stage == Stage::Expunging(p) && issues(
                a,
                Op::Expunge,
                seq![],
            ),
            _ => failed_over(o, n, a, p),
        },
        Stage::Expunging(p) => match reply {
            Reply::Done => advanced(o, n, a, p),
            _ => failed_over(o, n, a, p),
        },
        Stage::Finished => n == o && a is Done,
        Stage::Aborted => n == o && a is Abort,
    }
}


fn before_string(date: &String, read_term: &str) -> (r: String)
    ensures
        r@ == before_query(date@, read_term@),
{
    let mut s = "BEFORE ".to_owned();
    s.append(date.as_str());
    s.append(read_term);
    s
}

/// The mailbox that relocated messages go to, and that the purge empties.
pub fn holding_mailbox() -> (r: &'static str)
    ensures
        r@ == "Trash"@,
{
    "Trash"
}

fn next_pass_of(p: Pass) -> (r: Option<Pass>)
    ensures
        r == next_pass(p),
{
    match p {
        Pass::Seen => Some(Pass::Unseen),
        Pass::Unseen => Some(Pass::Purge),
        Pass::Purge => None,
    }
}

impl Engine {
    /// An engine for a run at the date `now`, with the read, unread and keep
    /// windows in days. There is none where a cutoff would fall before the
    /// year 1.
    pub fn new(now: &CivilDate, seen_before: u32, unseen_before: u32, keep: u32) -> (r: Option<
        Engine,
    >)
        requires
            now.valid(),
        ensures
            r is Some <==> seen_before <= now.day_number() && unseen_before as int + keep as int
                <= now.day_number(),
            r matches Some(e) ==> {
                &&& e.stage == Stage::SelectingInbox
                &&& e.support == MoveSupport::Unknown
                &&& e.failed@.len() == 0
                &&& e.seen_query@ == before_query(
                    date_of(now.day_number() - seen_before).literal(),
                    " SEEN"@,
                )
                &&& e.unseen_query@ == before_query(
                    date_of(now.day_number() - unseen_before).literal(),
                    seq![],
                )
                &&& e.purge_query@ == before_query(
                    date_of(now.day_number() - unseen_before - keep).literal(),
                    seq![],
                )
            },
    {
        let seen_date = match cutoff_date(now, seen_before) {
            Some(d) => d,
            None => return None,
        };
        let unseen_date = match cutoff_date(now, unseen_before) {
            Some(d) => d,
            None => return None,
        };
        let purge_date = match cutoff_date(&unseen_date, keep) {
            Some(d) => d,
            None => return None,
        };
        proof {
            reveal_strlit("");
        }
        Some(
            Engine {
                stage: Stage::SelectingInbox,
                support: MoveSupport::Unknown,
                pending: String::new(),
                seen_query: before_string(&date_literal(&seen_date), " SEEN"),
                unseen_query: before_string(&date_literal(&unseen_date), ""),
                purge_query: before_string(&date_literal(&purge_date), ""),
                failed: Vec::new(),
            },
        )
    }

    /// The first command of a run: select the inbox.
    pub fn opening(&self) -> (r: Action)
        ensures
            issues(r, Op::SelectMailbox, "INBOX"@),
    {
        Action::Run(Command { op: Op::SelectMailbox, arg: "INBOX".to_owned() })
    }

    fn enter(&mut self, p: Option<Pass>) -> (a: Action)
        ensures
            entered(*final(self), a, p),
            final(self).failed == old(self).failed,
            final(self).support == old(self).support,
            final(self).pending == old(self).pending,
            final(self).seen_query == old(self).seen_query,
            final(self).unseen_query == old(self).unseen_query,
            final(self).purge_query == old(self).purge_query,
    {
        match p {
            Some(Pass::Purge) => {
                self.stage = Stage::SelectingHolding;
                Action::Run(Command { op: Op::SelectMailbox, arg: holding_mailbox().to_owned() })
            },
            Some(Pass::Seen) => {
                self.stage = Stage::Searching(Pass::Seen);
                Action::Run(Command { op: Op::Search, arg: self.seen_query.clone() })
            },
            Some(Pass::Unseen) => {
                self.stage = Stage::Searching(Pass::Unseen);
                Action::Run(Command { op: Op::Search, arg: self.unseen_query.clone() })
            },
            None => {
                self.stage = Stage::Finished;
                Action::Done
            },
        }
    }

    fn fail(&mut self, p: Pass) -> (a: Action)
        ensures
            failed_over(*old(self), *final(self), a, p),
            final(self).support == old(self).support,
            final(self).seen_query == old(self).seen_query,
            final(self).unseen_query == old(self).unseen_query,
            final(self).purge_query == old(self).purge_query,
    {
        self.failed.push(p);
        self.enter(next_pass_of(p))
    }

    fn relocate_pending(&mut self, p: Pass) -> (a: Action)
        requires
            p == Pass::Purge || old(self).support != MoveSupport::Unknown,
        ensures
            relocating(*final(self), a, p),
            final(self).failed == old(self).failed,
            final(self).support == old(self).support,
            final(self).pending == old(self).pending,
            final(self).seen_query == old(self).seen_query,
            final(self).unseen_query == old(self).unseen_query,
            final(self).purge_query == old(self).purge_query,
    {
        let set = self.pending.clone();
        if p == Pass::Purge {
            self.stage = Stage::MarkingDeleted(p);
            Action::Run(Command { op: Op::MarkDeleted, arg: set })
        } else if self.support == MoveSupport::Supported {
            self.stage = Stage::Moving(p);
            Action::Run(Command { op: Op::Move, arg: set })
        } else {
            self.stage = Stage::Copying(p);
            Action::Run(Command { op: Op::Copy, arg: set })
        }
    }

    /// Takes the reply to the last command and says what comes next. A
    /// failure within a pass is recorded in `failed` and the next pass runs
    /// all the same; only a failure to select the inbox aborts the run. A
    /// reply that does not answer the last command counts as its failure.
    pub fn step(&mut self, reply: Reply) -> (a: Action)
        ensures
            transition(*old(self), reply, *final(self), a),
    {
        match self.stage {
            Stage::SelectingInbox => match reply {
                Reply::Selected(k) => if k == 0 {
                    self.stage = Stage::Finished;
                    Action::Done
                } else {
                    self.enter(Some(Pass::Seen))
                },
                _ => {
                    self.stage = Stage::Aborted;
                    Action::Abort
                },
            },
            Stage::SelectingHolding => match reply {
                Reply::Selected(k) => if k == 0 {
                    self.enter(None)
                } else {
                    self.stage = Stage::Searching(Pass::Purge);
                    Action::Run(Command { op: Op::Search, arg: self.purge_query.clone() })
                },
                _ => self.fail(Pass::Purge),
            },
            Stage::Searching(p) => match reply {
                Reply::Found(ids) => if ids.len() == 0 {
                    self.enter(next_pass_of(p))
                } else {
                    self.pending = compact_ids(ids, ",");
                    proof {
                        reveal_strlit(",");
                    }
                    if p != Pass::Purge && self.support == MoveSupport::Unknown {
                        self.stage = Stage::QueryingCapabilities(p);
                        Action::Run(Command { op: Op::QueryCapabilities, arg: String::new() })
                    } else {
                        self.relocate_pending(p)
                    }
                },
                _ => self.fail(p),
            },
            Stage::QueryingCapabilities(p) => match reply {
                Reply::Capabilities(b) => {
                    if self.support == MoveSupport::Unknown {
                        self.support = if b {
                            MoveSupport::Supported
                        } else {
                            MoveSupport::Unsupported
                        };
                    }
                    self.relocate_pending(p)
                },
                _ => self.fail(p),
            },
            Stage::Moving(p) => match reply {
                Reply::Done => self.enter(next_pass_of(p)),
                _ => self.fail(p),
            },
            Stage::Copying(p) => match reply {
                Reply::Done => {
                    self.stage = Stage::MarkingDeleted(p);
                    Action::Run(Command { op: Op::MarkDeleted, arg: self.pending.clone() })
                },
                _ => self.fail(p),
            },
            Stage::MarkingDeleted(p) => match reply {
                Reply::Done => {
                    self.stage = Stage::Expunging(p);
                    Action::Run(Command { op: Op::Expunge, arg: String::new() })
                },
                _ => self.fail(p),
            },
            Stage::Expunging(p) => match reply {
                Reply::Done => self.enter(next_pass_of(p)),
                _ => self.fail(p),
            },
            Stage::Finished => Action::Done,
            Stage::Aborted => Action::Abort,
        }
    }
}


/// The pass that a stage belongs to, if any.
pub open spec fn stage_pass(s: Stage) -> Option<Pass> {
    match s {
        Stage::Searching(p) => Some(p),
        Stage::QueryingCapabilities(p) => Some(p),
        Stage::Moving(p) => Some(p),
        Stage::Copying(p) => Some(p),
        Stage::MarkingDeleted(p) => Some(p),
        Stage::Expunging(p) => Some(p),
        Stage::SelectingHolding => Some(Pass::Purge),
        _ => None,
    }
}

/// A search that finds nothing ends its pass at once: the next command
/// changes no mailbox, and the pass counts as a success.
pub proof fn lemma_empty_search_changes_nothing(
    o: Engine,
    p: Pass,
    ids: Vec<u32>,
    n: Engine,
    a: Action,
)
    requires
        o.stage == Stage::Searching(p),
        ids@.len() == 0,
        transition(o, Reply::Found(ids), n, a),
    ensures
        !mutates(a),
        n.failed@ == o.failed@,
        entered(n, a, next_pass(p)),
{
}

/// Without move support a relocation copies the found set to the holding
/// mailbox, then flags that set deleted, then expunges. Where flagging
/// fails, the copy stays as it is: the failure is recorded and the next
/// command changes no mailbox.
pub proof fn lemma_copy_then_flag_then_expunge(
    o: Engine,
    p: Pass,
    ids: Vec<u32>,
    n1: Engine,
    a1: Action,
    n2: Engine,
    a2: Action,
    n3: Engine,
    a3: Action,
    m3: Engine,
    b3: Action,
)
    requires
        p != Pass::Purge,
        o.stage == Stage::Searching(p),
        o.support == MoveSupport::Unsupported,
        ids@.len() > 0,
        transition(o, Reply::Found(ids), n1, a1),
        transition(n1, Reply::Done, n2, a2),
        transition(n2, Reply::Done, n3, a3),
        transition(n2, Reply::Failed, m3, b3),
    ensures
        issues(a1, Op::Copy, compact_text(ids@, ","@)),
        issues(a2, Op::MarkDeleted, compact_text(ids@, ","@)),
        issues(a3, Op::Expunge, seq![]),
        m3.failed@ == o.failed@.push(p),
        !mutates(b3),
        entered(m3, b3, next_pass(p)),
{
}

/// A failed command in a pass does not end the run: the failure is
/// recorded and the next pass begins. After the read-message pass comes the
/// unread-message search; after that the holding mailbox is selected for
/// the purge.
pub proof fn lemma_failure_moves_to_next_pass(o: Engine, n: Engine, a: Action)
    requires
        stage_pass(o.stage) is Some,
        transition(o, Reply::Failed, n, a),
    ensures
        n.failed@ == o.failed@.push(stage_pass(o.stage)->0),
        entered(n, a, next_pass(stage_pass(o.stage)->0)),
        stage_pass(o.stage) == Some(Pass::Seen) ==> n.stage == Stage::Searching(Pass::Unseen)
            && issues(a, Op::Search, o.unseen_query@),
        stage_pass(o.stage) == Some(Pass::Unseen) ==> n.stage == Stage::SelectingHolding
            && issues(a, Op::SelectMailbox, "Trash"@),
{
}

/// An empty inbox ends the run at once, with success: no search and no
/// relocation follows, whatever replies come after.
pub proof fn lemma_empty_inbox_ends_run(o: Engine, n: Engine, a: Action)
    requires
        o.stage == Stage::SelectingInbox,
        transition(o, Reply::Selected(0), n, a),
    ensures
        a is Done,
        n.stage == Stage::Finished,
        n.failed == o.failed,
        forall|reply: Reply, n2: Engine, a2: Action|
            transition(n, reply, n2, a2) ==> a2 is Done && n2 == n,
{
}

} // verus!
