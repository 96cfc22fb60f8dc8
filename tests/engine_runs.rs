use mail_retention::date::CivilDate;
use mail_retention::engine::{
    Action, Engine, MoveSupport, Op, Pass, Reply, Stage, DEFAULT_KEEP, DEFAULT_SEEN_BEFORE,
    DEFAULT_UNSEEN_BEFORE,
};

#[derive(Clone, Debug)]
struct Message {
    uid: u32,
    date: (i32, u32, u32),
    seen: bool,
    deleted: bool,
}

fn msg(uid: u32, date: (i32, u32, u32), seen: bool) -> Message {
    Message { uid, date, seen, deleted: false }
}

fn month_number(name: &str) -> u32 {
    let names = ["Jan", "Feb", "Mar", "Apr", "May", "Jun", "Jul", "Aug", "Sep", "Oct", "Nov", "Dec"];
    names.iter().position(|m| *m == name).unwrap() as u32 + 1
}

fn decode(text: &str) -> Vec<u32> {
    let mut out = Vec::new();
    for part in text.split(',') {
        match part.split_once(':') {
            Some((a, b)) => {
                for x in a.parse::<u32>().unwrap()..=b.parse::<u32>().unwrap() {
                    out.push(x);
                }
            }
            None => out.push(part.parse().unwrap()),
        }
    }
    out
}

/// A mail store that answers the engine's commands, with a log of them.
struct Store {
    inbox: Vec<Message>,
    trash: Vec<Message>,
    selected: String,
    supports_move: bool,
    fail_op: Option<(Op, usize)>,
    log: Vec<(Op, String)>,
}

impl Store {
    fn new(inbox: Vec<Message>, supports_move: bool) -> Store {
        Store {
            inbox,
            trash: Vec::new(),
            selected: String::new(),
            supports_move,
            fail_op: None,
            log: Vec::new(),
        }
    }

    fn current(&mut self) -> &mut Vec<Message> {
        if self.selected == "Trash" {
            &mut self.trash
        } else {
            &mut self.inbox
        }
    }

    fn answer(&mut self, op: Op, arg: &str) -> Reply {
        self.log.push((op, arg.to_string()));
        if let Some((fop, nth)) = self.fail_op {
            let count = self.log.iter().filter(|(o, _)| *o == fop).count();
            if fop == op && count == nth {
                return Reply::Failed;
            }
        }
        match op {
            Op::SelectMailbox => {
                self.selected = arg.to_string();
                let n = self.current().iter().filter(|m| !m.deleted).count();
                Reply::Selected(n as u32)
            }
            Op::Search => {
                let words: Vec<&str> = arg.split(' ').collect();
                assert_eq!(words[0], "BEFORE");
                let parts: Vec<&str> = words[1].split('-').collect();
                let cutoff = (
                    parts[2].parse::<i32>().unwrap(),
                    month_number(parts[1]),
                    parts[0].parse::<u32>().unwrap(),
                );
                let need_seen = words.get(2) == Some(&"SEEN");
                let found = self
                    .current()
                    .iter()
                    .filter(|m| !m.deleted && m.date < cutoff && (!need_seen || m.seen))
                    .map(|m| m.uid)
                    .collect();
                Reply::Found(found)
            }
            Op::QueryCapabilities => Reply::Capabilities(self.supports_move),
            Op::Move | Op::Copy => {
                let ids = decode(arg);
                let taken: Vec<Message> =
                    self.inbox.iter().filter(|m| ids.contains(&m.uid)).cloned().collect();
                if op == Op::Move {
                    self.inbox.retain(|m| !ids.contains(&m.uid));
                }
                self.trash.extend(taken);
                Reply::Done
            }
            Op::MarkDeleted => {
                let ids = decode(arg);
                for m in self.current().iter_mut() {
                    if ids.contains(&m.uid) {
                        m.deleted = true;
                    }
                }
                Reply::Done
            }
            Op::Expunge => {
                self.current().retain(|m| !m.deleted);
                Reply::Done
            }
        }
    }
}

fn run(engine: &mut Engine, store: &mut Store) -> Action {
    let mut action = engine.opening();
    loop {
        match action {
            Action::Run(cmd) => {
                let reply = store.answer(cmd.op, &cmd.arg);
                action = engine.step(reply);
            }
            other => return other,
        }
    }
}

fn june_30() -> CivilDate {
    CivilDate { year: 2024, month: 6, day: 30 }
}

fn default_engine() -> Engine {
    Engine::new(&june_30(), DEFAULT_SEEN_BEFORE, DEFAULT_UNSEEN_BEFORE, DEFAULT_KEEP).unwrap()
}

fn scenario_inbox() -> Vec<Message> {
    vec![
        msg(10, (2024, 5, 1), true),
        msg(11, (2024, 5, 1), true),
        msg(12, (2024, 5, 2), true),
        msg(20, (2024, 5, 10), false),
        msg(30, (2024, 6, 28), true),
    ]
}

fn uids(ms: &[Message]) -> Vec<u32> {
    let mut v: Vec<u32> = ms.iter().map(|m| m.uid).collect();
    v.sort();
    v
}

#[test]
fn queries_follow_the_windows() {
    let e = default_engine();
    assert_eq!(e.seen_query, "BEFORE 15-Jun-2024 SEEN");
    assert_eq!(e.unseen_query, "BEFORE 31-May-2024");
    assert_eq!(e.purge_query, "BEFORE 01-May-2024");
    assert_eq!(e.stage, Stage::SelectingInbox);
    assert_eq!(e.support, MoveSupport::Unknown);
}

#[test]
fn engine_needs_cutoffs_in_range() {
    let first = CivilDate { year: 1, month: 1, day: 20 };
    assert!(Engine::new(&first, 19, 10, 9).is_some());
    assert!(Engine::new(&first, 20, 10, 9).is_none());
    assert!(Engine::new(&first, 5, 10, 10).is_none());
}

#[test]
fn end_to_end_with_move() {
    let mut e = default_engine();
    let mut s = Store::new(scenario_inbox(), true);
    assert!(matches!(run(&mut e, &mut s), Action::Done));
    assert_eq!(uids(&s.inbox), vec![30]);
    assert_eq!(uids(&s.trash), vec![10, 11, 12, 20]);
    let moves: Vec<String> =
        s.log.iter().filter(|(o, _)| *o == Op::Move).map(|(_, a)| a.clone()).collect();
    assert_eq!(moves, vec!["10:12".to_string(), "20".to_string()]);
    assert!(e.failed.is_empty());
    let caps = s.log.iter().filter(|(o, _)| *o == Op::QueryCapabilities).count();
    assert_eq!(caps, 1);
}

#[test]
fn end_to_end_with_copy_fallback() {
    let mut e = default_engine();
    let mut s = Store::new(scenario_inbox(), false);
    assert!(matches!(run(&mut e, &mut s), Action::Done));
    assert_eq!(uids(&s.inbox), vec![30]);
    assert_eq!(uids(&s.trash), vec![10, 11, 12, 20]);
    assert_eq!(e.support, MoveSupport::Unsupported);
    assert!(e.failed.is_empty());
}

#[test]
fn copy_fallback_order() {
    let mut e = default_engine();
    let mut s = Store::new(vec![msg(10, (2024, 5, 1), true), msg(11, (2024, 5, 1), true)], false);
    run(&mut e, &mut s);
    let ops: Vec<Op> = s.log.iter().map(|(o, _)| *o).collect();
    assert_eq!(
        ops[..7].to_vec(),
        vec![
            Op::SelectMailbox,
            Op::Search,
            Op::QueryCapabilities,
            Op::Copy,
            Op::MarkDeleted,
            Op::Expunge,
            Op::Search,
        ]
    );
    assert_eq!(s.log[3].1, "10:11");
    assert_eq!(s.log[4].1, "10:11");
}

#[test]
fn failed_flagging_keeps_the_copy() {
    let mut e = default_engine();
    let mut s = Store::new(vec![msg(10, (2024, 6, 10), true)], false);
    s.fail_op = Some((Op::MarkDeleted, 1));
    run(&mut e, &mut s);
    assert_eq!(e.failed, vec![Pass::Seen]);
    assert_eq!(uids(&s.trash), vec![10]);
    assert_eq!(uids(&s.inbox), vec![10]);
    let copies = s.log.iter().filter(|(o, _)| *o == Op::Copy).count();
    assert_eq!(copies, 1);
}

#[test]
fn empty_search_changes_nothing() {
    let mut e = default_engine();
    e.step(Reply::Selected(3));
    assert_eq!(e.stage, Stage::Searching(Pass::Seen));
    match e.step(Reply::Found(vec![])) {
        Action::Run(c) => {
            assert_eq!(c.op, Op::Search);
            assert_eq!(c.arg, "BEFORE 31-May-2024");
        }
        _ => panic!("expected the unread search"),
    }
    assert!(e.failed.is_empty());
}

#[test]
fn seen_failure_does_not_stop_later_passes() {
    let mut e = default_engine();
    let mut s = Store::new(scenario_inbox(), true);
    s.fail_op = Some((Op::Search, 1));
    assert!(matches!(run(&mut e, &mut s), Action::Done));
    assert_eq!(e.failed, vec![Pass::Seen]);
    assert_eq!(uids(&s.inbox), vec![30]);
    assert_eq!(uids(&s.trash), vec![10, 11, 12, 20]);
    assert!(s.log.iter().any(|(o, a)| *o == Op::SelectMailbox && a == "Trash"));
}

#[test]
fn unseen_failure_still_checks_the_purge() {
    let mut e = default_engine();
    let mut s = Store::new(scenario_inbox(), true);
    s.fail_op = Some((Op::Search, 2));
    assert!(matches!(run(&mut e, &mut s), Action::Done));
    assert_eq!(e.failed, vec![Pass::Unseen]);
    assert_eq!(s.log.last().unwrap().0, Op::Search);
    assert_eq!(s.log.last().unwrap().1, "BEFORE 01-May-2024");
}

#[test]
fn empty_inbox_ends_the_run() {
    let mut e = default_engine();
    let mut s = Store::new(vec![], true);
    assert!(matches!(run(&mut e, &mut s), Action::Done));
    assert_eq!(s.log.len(), 1);
    assert!(e.failed.is_empty());
    assert_eq!(e.stage, Stage::Finished);
    assert!(matches!(e.step(Reply::Found(vec![1])), Action::Done));
}

#[test]
fn inbox_selection_failure_aborts() {
    let mut e = default_engine();
    assert!(matches!(e.step(Reply::Failed), Action::Abort));
    assert_eq!(e.stage, Stage::Aborted);
}

#[test]
fn purge_removes_old_holding_messages() {
    let mut e = default_engine();
    let mut s = Store::new(vec![msg(30, (2024, 6, 28), true)], true);
    s.trash = vec![msg(1, (2024, 3, 1), true), msg(2, (2024, 3, 2), false), msg(5, (2024, 6, 1), true)];
    assert!(matches!(run(&mut e, &mut s), Action::Done));
    assert_eq!(uids(&s.trash), vec![5]);
    assert!(s.log.iter().any(|(o, a)| *o == Op::MarkDeleted && a == "1:2"));
    assert!(!s.log.iter().any(|(o, _)| *o == Op::Move));
}

#[test]
fn empty_holding_mailbox_skips_the_purge() {
    let mut e = default_engine();
    let mut s = Store::new(vec![msg(30, (2024, 6, 28), true)], true);
    assert!(matches!(run(&mut e, &mut s), Action::Done));
    assert_eq!(s.log.last().unwrap().0, Op::SelectMailbox);
    assert_eq!(s.log.last().unwrap().1, "Trash");
}

#[test]
fn capability_reply_is_cached() {
    let mut e = default_engine();
    e.step(Reply::Selected(1));
    e.step(Reply::Found(vec![4]));
    e.step(Reply::Capabilities(true));
    assert_eq!(e.support, MoveSupport::Supported);
    e.step(Reply::Done);
    match e.step(Reply::Found(vec![9, 8])) {
        Action::Run(c) => {
            assert_eq!(c.op, Op::Move);
            assert_eq!(c.arg, "8:9");
        }
        _ => panic!("expected a move"),
    }
}
