use cmpth::interchange::PointerInterchangeable;
use cmpth::resumable::common::desc::{
    decode_join_state, ExitAction, JoinState, SuspendedTaskToken, TaskDesc, TaskDescAlloc,
    TaskDescCore, JS_DETACHED, JS_FINISHED, JS_RUNNING,
};
use cmpth::resumable::common::stack::StackMem;
use cmpth::resumable::dual::desc::{DualTaskDesc, TaskDispatch};
use cmpth::resumable::stackful::desc::{HasCtx, StackfulOnlyTaskDesc};
use cmpth::resumable::stackless::desc::{HasPollFn, StacklessOnlyTaskDesc, WakerTaskDesc};
use cmpth::resumable::common::waker::{NOTIFIED, PARKED, POLLING};

const STACK: StackMem = StackMem::Heap { ptr: 0x10000, size: 0x4000 };

#[test]
fn narrow_descriptors_are_smaller_than_dual() {
    let dual = std::mem::size_of::<DualTaskDesc>();
    let stackful = std::mem::size_of::<StackfulOnlyTaskDesc>();
    let stackless = std::mem::size_of::<StacklessOnlyTaskDesc>();
    assert!(stackful < dual, "StackfulOnlyTaskDesc ({stackful}) should be smaller than DualTaskDesc ({dual})");
    assert!(stackless < dual, "StacklessOnlyTaskDesc ({stackless}) should be smaller than DualTaskDesc ({dual})");
}

#[test]
fn join_words_are_told_apart() {
    assert_eq!(decode_join_state(JS_RUNNING), JoinState::Running);
    assert_eq!(decode_join_state(JS_FINISHED), JoinState::Finished);
    assert_eq!(decode_join_state(JS_DETACHED), JoinState::Detached);
    assert_eq!(decode_join_state(0x100), JoinState::SyncJoiner(0x100));
    assert_eq!(decode_join_state(0x101), JoinState::AsyncWaker(0x100));
    assert_eq!(decode_join_state(0x102), JoinState::AsyncJoiner(0x100));
}

#[test]
fn a_joiner_that_comes_first_is_resumed() {
    let mut d = StackfulOnlyTaskDesc::alloc_with(STACK, true);
    assert!(d.try_take_handoff_target().is_none());
    assert!(matches!(d.try_register_joiner(SuspendedTaskToken::from_raw(0x80)), Ok(None)));
    assert_eq!(d.try_take_handoff_target().unwrap().into_ptr(), 0x80);
    match d.finish_and_settle() {
        ExitAction::Resume(t) => assert_eq!(t.into_ptr(), 0x80),
        _ => panic!("the joiner was not resumed"),
    }
    assert!(d.is_finished());
}

#[test]
fn a_joiner_that_comes_last_finds_the_result() {
    let mut d = StackfulOnlyTaskDesc::alloc_with(STACK, true);
    assert!(matches!(d.finish_and_settle(), ExitAction::Nothing));
    match d.try_register_joiner(SuspendedTaskToken::from_raw(0x80)) {
        Err(t) => assert_eq!(t.into_ptr(), 0x80),
        Ok(_) => panic!("a finished task took a joiner"),
    }
}

#[test]
fn exactly_one_side_reclaims() {
    let mut d = StackfulOnlyTaskDesc::alloc_with(STACK, true);
    assert_eq!(d.try_abandon(), (false, None));
    assert!(d.is_abandoned());
    assert!(matches!(d.finish_and_settle(), ExitAction::Reclaim));

    let mut d = StackfulOnlyTaskDesc::alloc_with(STACK, true);
    d.commit_finished();
    assert_eq!(d.try_abandon(), (true, None));
    assert!(!d.is_abandoned());
}

#[test]
fn wakers_are_handed_out() {
    let mut d = DualTaskDesc::alloc_with(STACK, true);
    d.set_join_state(0x101);
    assert_eq!(d.try_abandon(), (false, Some(0x100)));
    let mut d = DualTaskDesc::alloc_with(STACK, true);
    d.set_join_state(0x101);
    assert!(matches!(d.finish_and_settle(), ExitAction::Wake(0x100)));
    let mut d = DualTaskDesc::alloc_with(STACK, true);
    d.set_join_state(0x102);
    assert!(matches!(d.finish_and_settle(), ExitAction::Claim(0x100)));
}

#[test]
fn a_task_without_a_handle_starts_detached() {
    let d = StackfulOnlyTaskDesc::alloc_with(STACK, false);
    assert!(d.is_abandoned());
    assert_eq!(d.stack_top(), 0x14000);
    let root = StackfulOnlyTaskDesc::new_root();
    assert!(root.is_root());
    assert_eq!(root.stack_top(), 0);
}

#[test]
fn reinit_resets_all_but_the_stack_and_the_role() {
    let mut d = DualTaskDesc::alloc_with(STACK, true);
    d.owned_mut().commit_as_poll_fn();
    d.owned_mut().set_poll_fn(0x99);
    d.commit_finished();
    d.mark_polling();
    d.reinit(true);
    assert_eq!(d.owned.dispatch, TaskDispatch::PollFn(0));
    assert_eq!(d.join_state(), JS_RUNNING);
    assert_eq!(d.waker_refs(), 0);
    assert_eq!(d.stack_top(), 0x14000);
    d.owned_mut().commit_as_ctx();
    assert_eq!(d.owned().ctx(), 0);
    assert!(!d.owned().is_poll_fn_dispatch());
}

#[test]
fn only_a_parked_polled_joiner_is_claimed() {
    let mut d = StacklessOnlyTaskDesc::alloc_with(StackMem::NoStack, true);
    d.mark_polling();
    assert!(!d.try_claim_async_joiner());
    assert_eq!(d.waker_refs(), NOTIFIED);
    assert!(!d.decide_park());
    assert!(d.decide_park());
    assert_eq!(d.waker_refs(), PARKED);
    assert!(d.try_claim_async_joiner());
    assert_eq!(d.waker_refs(), POLLING);
    let mut s = StackfulOnlyTaskDesc::alloc_with(STACK, true);
    assert!(!s.try_claim_async_joiner());
}

#[test]
fn narrow_systems_decode_their_join_words() {
    assert_eq!(StackfulOnlyTaskDesc::decode_join(JS_RUNNING), JoinState::Running);
    assert_eq!(StackfulOnlyTaskDesc::decode_join(JS_FINISHED), JoinState::Finished);
    assert_eq!(StackfulOnlyTaskDesc::decode_join(JS_DETACHED), JoinState::Detached);
    assert_eq!(StackfulOnlyTaskDesc::decode_join(0x1000), JoinState::SyncJoiner(0x1000));
}
