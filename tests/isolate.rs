use deno_core::isolate::{
    js_check, pack_response, split_startup, DispatchError, Dispatched, IsolateState, OwnedScript,
    PollOutcome, PromiseRejections, RecvSlot, Script, SnapshotError, StartupData,
};
use deno_core::ops::{Op, OpRegistry};
use deno_core::shared_queue::{SharedQueue, RECOMMENDED_SIZE};

fn registry() -> OpRegistry<u32> {
    let mut r = OpRegistry::new();
    assert_eq!(r.register("test", 7), Some(1));
    r
}

#[test]
fn sync_op_replies_under_id_zero() {
    let r = registry();
    let q = SharedQueue::new(RECOMMENDED_SIZE);
    let mut st = IsolateState::new(false, false);
    assert_eq!(st.dispatch_lookup(&r, &q, 1), Ok(&7));
    match st.dispatch_result::<()>(1, Op::Sync(vec![43])) {
        Dispatched::Reply(id, buf) => {
            assert_eq!(id, 0);
            assert_eq!(buf, vec![43]);
        }
        _ => panic!("expected a sync reply"),
    }
    assert!(!st.have_unpolled_ops);
    assert_eq!(st.poll_outcome(0, 0), PollOutcome::Ready);
}

#[test]
fn async_op_is_pending_until_delivered() {
    let mut q = SharedQueue::new(RECOMMENDED_SIZE);
    let mut st = IsolateState::new(false, false);
    match st.dispatch_result(1, Op::Async("future")) {
        Dispatched::Pending(id, f) => {
            assert_eq!(id, 1);
            assert_eq!(f, "future");
        }
        _ => panic!("expected a pending op"),
    }
    assert!(st.have_unpolled_ops);
    assert_eq!(st.poll_outcome(1, 0), PollOutcome::Pending { wake: true });
    st.begin_drain();
    assert!(!st.have_unpolled_ops);
    assert!(pack_response(&mut q, 1, vec![43]).is_none());
    assert_eq!(q.size(), 1);
    assert_eq!(q.shift(), Some((1, vec![43])));
    assert_eq!(st.poll_outcome(0, 0), PollOutcome::Ready);
}

#[test]
fn unref_ops_do_not_keep_the_isolate_alive() {
    let mut st = IsolateState::new(false, false);
    match st.dispatch_result(1, Op::AsyncUnref(0u8)) {
        Dispatched::PendingUnref(id, _) => assert_eq!(id, 1),
        _ => panic!("expected an unref op"),
    }
    assert_eq!(st.poll_outcome(0, 1), PollOutcome::Ready);
    assert_eq!(st.poll_outcome(0, 5), PollOutcome::Ready);
    st.begin_drain();
    assert_eq!(st.poll_outcome(2, 5), PollOutcome::Pending { wake: false });
}

#[test]
fn large_response_takes_the_overflow_path() {
    let mut q = SharedQueue::new(RECOMMENDED_SIZE);
    let mut payload = vec![0u8; 100 * 1024 * 1024];
    payload[0] = 4;
    let back = pack_response(&mut q, 1, payload).unwrap();
    assert_eq!(back.0, 1);
    assert_eq!(back.1.len(), 100 * 1024 * 1024);
    assert_eq!(back.1[0], 4);
    assert_eq!(q.size(), 0);
}

#[test]
fn unknown_op_id_is_refused() {
    let r = registry();
    let q = SharedQueue::new(RECOMMENDED_SIZE);
    let st = IsolateState::new(false, false);
    assert_eq!(st.dispatch_lookup(&r, &q, 100), Err(DispatchError::UnknownOp(100)));
    assert_eq!(st.dispatch_lookup(&r, &q, 0), Err(DispatchError::UnknownOp(0)));
    assert_eq!(st.dispatch_lookup(&r, &q, 1), Ok(&7));
}

#[test]
fn dispatch_before_drain_is_refused() {
    let r = registry();
    let mut q = SharedQueue::new(RECOMMENDED_SIZE);
    let st = IsolateState::new(false, false);
    assert!(q.push(1, &[1]));
    assert_eq!(st.dispatch_lookup(&r, &q, 1), Err(DispatchError::QueueNotDrained));
    q.shift();
    assert_eq!(st.dispatch_lookup(&r, &q, 1), Ok(&7));
}

#[test]
fn second_receiver_is_refused() {
    let mut slot = RecvSlot::new();
    assert!(slot.get().is_none());
    assert_eq!(slot.set("first"), Ok(()));
    assert_eq!(slot.set("second"), Err("second"));
    assert_eq!(slot.get(), Some(&"first"));
}

#[test]
fn init_runs_once() {
    let mut st = IsolateState::new(false, true);
    assert!(st.take_init());
    assert!(!st.take_init());
    assert!(!st.take_init());
}

#[test]
fn snapshot_only_once_and_only_when_asked_for() {
    let mut plain = IsolateState::new(false, false);
    assert_eq!(plain.mark_snapshotted(), Err(SnapshotError::NotSnapshotting));
    assert!(plain.can_execute());
    let mut st = IsolateState::new(true, false);
    assert!(st.can_execute());
    assert_eq!(st.mark_snapshotted(), Ok(()));
    assert!(!st.can_execute());
    assert_eq!(st.mark_snapshotted(), Err(SnapshotError::AlreadyTaken));
}

#[test]
fn startup_data_is_split() {
    let (script, snap) = split_startup(StartupData::Script(Script {
        source: "a = 1 + 2",
        filename: "a.js",
    }));
    let script = script.unwrap();
    assert_eq!(script.source, "a = 1 + 2");
    assert_eq!(script.filename, "a.js");
    assert!(snap.is_none());
    static BLOB: [u8; 3] = [1, 2, 3];
    let (script, snap) = split_startup(StartupData::Snapshot(&BLOB));
    assert!(script.is_none());
    assert_eq!(snap, Some(&BLOB[..]));
    let (script, snap) = split_startup(StartupData::Nothing);
    assert!(script.is_none() && snap.is_none());
    let o = OwnedScript::from_script(Script { source: "x", filename: "y.js" });
    assert_eq!((o.source.as_str(), o.filename.as_str()), ("x", "y.js"));
}

#[test]
fn js_check_returns_the_value() {
    let r: Result<u32, String> = Ok(3);
    assert_eq!(js_check(r), 3);
}

#[test]
fn rejections_are_reported_oldest_first() {
    let mut t: PromiseRejections<&str> = PromiseRejections::new();
    assert!(t.is_empty());
    assert_eq!(t.take_next(), None);
    t.insert(3, "three");
    t.insert(1, "one");
    t.insert(3, "three again");
    assert!(!t.is_empty());
    assert_eq!(t.take_next(), Some((3, "three again")));
    assert_eq!(t.take_next(), Some((1, "one")));
    assert_eq!(t.take_next(), None);
}

#[test]
fn handled_rejection_is_dropped() {
    let mut t: PromiseRejections<u8> = PromiseRejections::new();
    t.insert(1, 10);
    t.insert(2, 20);
    t.insert(5, 50);
    assert_eq!(t.remove(2), Some(20));
    assert_eq!(t.remove(2), None);
    assert_eq!(t.remove(9), None);
    assert_eq!(t.take_next(), Some((1, 10)));
    assert_eq!(t.take_next(), Some((5, 50)));
    assert!(t.is_empty());
}
