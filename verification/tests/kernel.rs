use ioc::config::CfgSource;
use ioc::ctx::Ctx;
use ioc::error::{Error, Violation};
use ioc::init::{InitCtx, Stage};
use ioc::key::Key;
use ioc::ledger::{Hooks, Ledger};
use ioc::life::{InitPhase, Latch, UninitPhase};
use std::cell::RefCell;
use std::rc::Rc;

type Init = fn(&InitCtx<u64>) -> Result<u64, Error>;

const A: Key = Key(1);
const B: Key = Key(2);
const C: Key = Key(3);

fn empty_source() -> CfgSource {
    CfgSource::new()
}

fn init_a(_ctx: &InitCtx<u64>) -> Result<u64, Error> {
    Ok(1)
}

fn init_b(ctx: &InitCtx<u64>) -> Result<u64, Error> {
    let a = ctx.get(A)?;
    Ok(*a + 1)
}

fn init_broken(_ctx: &InitCtx<u64>) -> Result<u64, Error> {
    Err(Error::Other("no bean today".to_string()))
}

fn fresh_ctx(latch: &mut Latch) -> InitCtx<u64> {
    InitCtx::new(InitPhase::take(latch).unwrap(), empty_source())
}

#[test]
fn latch_grants_exactly_one_acquisition() {
    let mut latch = Latch::new();
    assert!(!latch.taken());
    assert!(UninitPhase::acquire(&mut latch).is_ok());
    assert!(latch.taken());
    for _ in 0..3 {
        match UninitPhase::acquire(&mut latch) {
            Err(Error::DuplicatedInit(what)) => assert_eq!(what, "InitPhase"),
            other => panic!("second acquisition must be refused, got {:?}", other),
        }
        assert!(latch.taken());
    }
}

#[test]
fn take_is_acquire_and_begin() {
    let mut latch = Latch::new();
    let token = UninitPhase::acquire(&mut latch).unwrap();
    let _init: InitPhase = token.begin();
    assert!(matches!(
        InitPhase::take(&mut latch),
        Err(Error::DuplicatedInit("InitPhase"))
    ));
}

#[test]
fn initializers_run_in_registration_order() {
    let mut latch = Latch::new();
    let mut ledger: Ledger<Init> = Ledger::new();
    ledger.register(A, init_a, true);
    ledger.register(B, init_b, true);
    assert_eq!(ledger.len(), 2);
    let mut ctx = fresh_ctx(&mut latch);
    assert_eq!(ctx.progress(), Stage::Fresh);
    ctx.run_init(ledger).unwrap();
    assert_eq!(ctx.progress(), Stage::Ran);
    assert_eq!(*ctx.get(A).unwrap(), 1);
    assert_eq!(*ctx.get(B).unwrap(), 2);
    let active = ctx.complete().unwrap();
    assert_eq!(*active.get(B).unwrap(), 2);
}

#[test]
fn initializer_that_reads_too_early_fails_the_run() {
    let mut latch = Latch::new();
    let mut ledger: Ledger<Init> = Ledger::new();
    ledger.register(B, init_b, true);
    ledger.register(A, init_a, true);
    let mut ctx = fresh_ctx(&mut latch);
    match ctx.run_init(ledger) {
        Err(Error::InitFailed { entry, key, cause }) => {
            assert_eq!(entry, 0);
            assert_eq!(key, B);
            assert!(matches!(
                *cause,
                Error::ContractViolation(Violation::NotInitialized)
            ));
        }
        other => panic!("the run must fail at the first entry, got {:?}", other),
    }
    assert_eq!(ctx.progress(), Stage::Failed);
    assert!(matches!(
        ctx.get(A),
        Err(Error::ContractViolation(Violation::NotInitialized))
    ));
    assert!(matches!(
        ctx.complete(),
        Err(Error::ContractViolation(Violation::NotStarted))
    ));
}

#[test]
fn first_failure_aborts_and_keeps_what_was_written() {
    let mut latch = Latch::new();
    let mut ledger: Ledger<Init> = Ledger::new();
    ledger.register(A, init_a, true);
    ledger.register(C, init_broken, false);
    ledger.register(B, init_b, true);
    let mut ctx = fresh_ctx(&mut latch);
    match ctx.run_init(ledger) {
        Err(Error::InitFailed { entry, key, cause }) => {
            assert_eq!(entry, 1);
            assert_eq!(key, C);
            match *cause {
                Error::Other(text) => assert_eq!(text, "no bean today"),
                other => panic!("the cause must come through, got {:?}", other),
            }
        }
        other => panic!("the run must fail at the second entry, got {:?}", other),
    }
    assert_eq!(*ctx.get(A).unwrap(), 1);
    assert!(matches!(
        ctx.get(C),
        Err(Error::ContractViolation(Violation::NotInitialized))
    ));
    assert!(matches!(
        ctx.get(B),
        Err(Error::ContractViolation(Violation::NotInitialized))
    ));
}

#[test]
fn duplicated_key_is_refused_before_any_initializer_runs() {
    let mut latch = Latch::new();
    let mut ledger: Ledger<Init> = Ledger::new();
    ledger.register(A, init_a, true);
    ledger.register(B, init_b, true);
    ledger.register(A, init_broken, true);
    assert_eq!(ledger.first_repeat(), Some(2));
    let mut ctx = fresh_ctx(&mut latch);
    assert!(matches!(ctx.run_init(ledger), Err(Error::DuplicatedKey(Key(1)))));
    assert_eq!(ctx.progress(), Stage::Failed);
    assert!(matches!(ctx.get(A), Err(Error::UnregisteredKey(Key(1)))));
}

#[test]
fn a_context_runs_one_ledger_only() {
    let mut latch = Latch::new();
    let mut first: Ledger<Init> = Ledger::new();
    first.register(A, init_a, true);
    let mut second: Ledger<Init> = Ledger::new();
    second.register(B, init_a, true);
    let mut ctx = fresh_ctx(&mut latch);
    ctx.run_init(first).unwrap();
    assert!(matches!(
        ctx.run_init(second),
        Err(Error::ContractViolation(Violation::AlreadyStarted))
    ));
    assert_eq!(ctx.progress(), Stage::Ran);
    assert!(matches!(ctx.get(B), Err(Error::UnregisteredKey(Key(2)))));
}

#[test]
fn complete_before_the_run_is_refused() {
    let mut latch = Latch::new();
    let ctx = fresh_ctx(&mut latch);
    assert!(matches!(
        ctx.complete(),
        Err(Error::ContractViolation(Violation::NotStarted))
    ));
}

#[test]
fn empty_ledger_starts_an_empty_kernel() {
    let mut latch = Latch::new();
    let ledger: Ledger<Init> = Ledger::new();
    let ctx: Ctx<u64> = Ctx::new(&mut latch, empty_source(), ledger).unwrap();
    assert_eq!(ctx.len(), 0);
    assert!(matches!(ctx.get(A), Err(Error::UnregisteredKey(Key(1)))));
}

#[test]
fn second_start_on_one_latch_is_duplicated_initialization() {
    let mut latch = Latch::new();
    let mut ledger: Ledger<Init> = Ledger::new();
    ledger.register(A, init_a, true);
    let first: Ctx<u64> = Ctx::new(&mut latch, empty_source(), ledger).unwrap();
    assert_eq!(*first.get(A).unwrap(), 1);
    let mut again: Ledger<Init> = Ledger::new();
    again.register(A, init_a, true);
    let second: Result<Ctx<u64>, Error> = Ctx::new(&mut latch, empty_source(), again);
    assert!(matches!(second, Err(Error::DuplicatedInit("InitPhase"))));
}

#[test]
fn get_mut_changes_one_bean_only() {
    let mut latch = Latch::new();
    let mut ledger: Ledger<Init> = Ledger::new();
    ledger.register(A, init_a, true);
    ledger.register(B, init_b, true);
    let mut ctx: Ctx<u64> = Ctx::new(&mut latch, empty_source(), ledger).unwrap();
    *ctx.get_mut(B).unwrap() = 40;
    assert_eq!(*ctx.get(A).unwrap(), 1);
    assert_eq!(*ctx.get(B).unwrap(), 40);
    assert!(matches!(ctx.get_mut(C), Err(Error::UnregisteredKey(Key(3)))));
}

#[test]
fn finalize_tears_down_in_registration_order_and_once() {
    let mut latch = Latch::new();
    let mut ledger: Ledger<Init> = Ledger::new();
    ledger.register(B, init_a, true);
    ledger.register(C, init_a, false);
    ledger.register(A, init_a, true);
    let mut ctx: Ctx<u64> = Ctx::new(&mut latch, empty_source(), ledger).unwrap();
    assert!(!ctx.finalized());
    assert_eq!(ctx.finalize().unwrap(), vec![B, A]);
    assert!(ctx.finalized());
    for key in [A, B, C] {
        assert!(matches!(
            ctx.get(key),
            Err(Error::ContractViolation(Violation::Finalized))
        ));
        assert!(matches!(
            ctx.get_mut(key),
            Err(Error::ContractViolation(Violation::Finalized))
        ));
    }
    assert!(matches!(
        ctx.finalize(),
        Err(Error::ContractViolation(Violation::Finalized))
    ));
}

#[test]
fn into_phase_gives_the_token_back() {
    let mut latch = Latch::new();
    let ctx = fresh_ctx(&mut latch);
    let token: InitPhase = ctx.into_phase();
    let _active = token.complete();
    assert!(latch.taken());
}

type Hook = Box<dyn Fn(&Ctx<u64>)>;

fn noting(log: &Rc<RefCell<Vec<(u32, u64)>>>, id: u32) -> Hook {
    let log = log.clone();
    Box::new(move |ctx: &Ctx<u64>| {
        let seen = *ctx.get(B).unwrap();
        log.borrow_mut().push((id, seen));
    })
}

#[test]
fn hooks_run_in_order_on_the_active_context() {
    let log = Rc::new(RefCell::new(Vec::new()));
    let mut hooks: Hooks<Hook> = Hooks::new();
    hooks.register(noting(&log, 1));
    hooks.register(noting(&log, 2));
    hooks.register(noting(&log, 3));
    assert_eq!(hooks.len(), 3);
    let mut latch = Latch::new();
    let mut ledger: Ledger<Init> = Ledger::new();
    ledger.register(A, init_a, true);
    ledger.register(B, init_b, true);
    let ctx: Ctx<u64> = Ctx::from_cfg(&mut latch, empty_source(), ledger, hooks).unwrap();
    assert_eq!(*log.borrow(), vec![(1, 2), (2, 2), (3, 2)]);
    assert_eq!(*ctx.get(A).unwrap(), 1);
    assert!(!ctx.finalized());
}

#[test]
fn no_hook_runs_where_the_start_fails() {
    let log = Rc::new(RefCell::new(Vec::new()));
    let mut hooks: Hooks<Hook> = Hooks::new();
    hooks.register(noting(&log, 1));
    let mut latch = Latch::new();
    let mut ledger: Ledger<Init> = Ledger::new();
    ledger.register(A, init_broken, true);
    let failed: Result<Ctx<u64>, Error> =
        Ctx::from_cfg(&mut latch, empty_source(), ledger, hooks);
    assert!(matches!(failed, Err(Error::InitFailed { entry: 0, .. })));
    assert!(log.borrow().is_empty());

    let mut hooks: Hooks<Hook> = Hooks::new();
    hooks.register(noting(&log, 2));
    let ledger: Ledger<Init> = Ledger::new();
    let again: Result<Ctx<u64>, Error> =
        Ctx::from_cfg(&mut latch, empty_source(), ledger, hooks);
    assert!(matches!(again, Err(Error::DuplicatedInit("InitPhase"))));
    assert!(log.borrow().is_empty());
}

#[test]
fn hooks_can_run_on_a_context_that_is_up() {
    let log = Rc::new(RefCell::new(Vec::new()));
    let mut hooks: Hooks<Hook> = Hooks::new();
    hooks.register(noting(&log, 7));
    let mut latch = Latch::new();
    let mut ledger: Ledger<Init> = Ledger::new();
    ledger.register(A, init_a, true);
    ledger.register(B, init_b, true);
    let ctx: Ctx<u64> = Ctx::new(&mut latch, empty_source(), ledger).unwrap();
    assert!(log.borrow().is_empty());
    ctx.post_init(&hooks);
    assert_eq!(*log.borrow(), vec![(7, 2)]);
}
