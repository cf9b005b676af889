use ioc::config::{CfgSource, ConfigSource};
use ioc::context::Context;
use ioc::ctx::Ctx;
use ioc::error::{Error, Violation};
use ioc::init::InitCtx;
use ioc::key::{Alias, Binding, Key};
use ioc::ledger::Ledger;
use ioc::life::Latch;

#[derive(Debug, PartialEq)]
struct Counter {
    value: u64,
}

#[derive(Debug, PartialEq)]
struct Greeter {
    greeting: String,
}

#[derive(Debug, PartialEq)]
enum Service {
    Counter(Counter),
    Greeter(Greeter),
}

type Init = fn(&InitCtx<Service>) -> Result<Service, Error>;

const COUNTER: Key = Key(1);
const GREETER: Key = Key(2);
const SPEAKER: Alias = Alias(10);

fn init_counter(_ctx: &InitCtx<Service>) -> Result<Service, Error> {
    Ok(Service::Counter(Counter { value: 0 }))
}

fn init_greeter(ctx: &InitCtx<Service>) -> Result<Service, Error> {
    let word: String = ctx.get_config_or("greeter.word", "hello".to_string())?;
    match ctx.get(COUNTER)? {
        Service::Counter(counter) => Ok(Service::Greeter(Greeter {
            greeting: format!("{} #{}", word, counter.value),
        })),
        Service::Greeter(_) => Err(Error::Other("the counter is no counter".to_string())),
    }
}

fn start(latch: &mut Latch) -> Ctx<Service> {
    let mut ledger: Ledger<Init> = Ledger::new();
    ledger.register(COUNTER, init_counter, true);
    ledger.register(GREETER, init_greeter, true);
    let config = CfgSource::new();
    Ctx::new(latch, config, ledger).unwrap()
}

#[test]
fn end_to_end() {
    let mut latch = Latch::new();
    let mut root = start(&mut latch);
    {
        let ctx = Context::compose(
            &root,
            &vec![Binding { alias: SPEAKER, key: GREETER }],
            &vec![],
        )
        .unwrap();
        match ctx.get_by_key(COUNTER).unwrap() {
            Service::Counter(counter) => assert_eq!(counter.value, 0),
            other => panic!("the counter is registered for its key, got {:?}", other),
        }
        let by_alias = ctx.get_by_alias(SPEAKER).unwrap();
        let by_key = ctx.get_by_key(GREETER).unwrap();
        assert!(std::ptr::eq(by_alias, by_key));
        assert_eq!(
            *by_alias,
            Service::Greeter(Greeter { greeting: "hello #0".to_string() })
        );
    }
    assert_eq!(root.finalize().unwrap(), vec![COUNTER, GREETER]);
    let ctx = Context::new(&root);
    assert!(matches!(
        ctx.get_by_key(COUNTER),
        Err(Error::ContractViolation(Violation::Finalized))
    ));
    assert!(matches!(
        root.get(GREETER),
        Err(Error::ContractViolation(Violation::Finalized))
    ));
}

#[test]
fn child_and_parent_answer_side_by_side() {
    let mut latch = Latch::new();
    let root = start(&mut latch);
    let parent = Context::compose(
        &root,
        &vec![Binding { alias: SPEAKER, key: COUNTER }],
        &vec![],
    )
    .unwrap();
    let child = parent
        .wrap(&vec![Binding { alias: SPEAKER, key: GREETER }])
        .unwrap();
    assert_eq!(child.resolve(SPEAKER).unwrap(), GREETER);
    assert_eq!(parent.resolve(SPEAKER).unwrap(), COUNTER);
    assert!(std::ptr::eq(
        child.get_by_alias(SPEAKER).unwrap(),
        root.get(GREETER).unwrap()
    ));
    assert!(std::ptr::eq(
        parent.get_by_alias(SPEAKER).unwrap(),
        root.get(COUNTER).unwrap()
    ));
}

#[test]
fn context_inherits_what_it_does_not_declare() {
    let mut latch = Latch::new();
    let root = start(&mut latch);
    let parent = Context::compose(
        &root,
        &vec![Binding { alias: SPEAKER, key: GREETER }],
        &vec![],
    )
    .unwrap();
    let child = parent.wrap(&vec![]).unwrap();
    assert!(std::ptr::eq(
        child.get_by_alias(SPEAKER).unwrap(),
        root.get(GREETER).unwrap()
    ));
}

#[test]
fn diamond_context_is_refused() {
    let mut latch = Latch::new();
    let root = start(&mut latch);
    let left = Context::compose(
        &root,
        &vec![Binding { alias: SPEAKER, key: COUNTER }],
        &vec![],
    )
    .unwrap();
    let right = Context::compose(
        &root,
        &vec![Binding { alias: SPEAKER, key: GREETER }],
        &vec![],
    )
    .unwrap();
    let joined = Context::compose(&root, &vec![], &vec![&left, &right]);
    assert!(matches!(joined, Err(Error::AmbiguousAlias(Alias(10)))));
}

#[test]
fn unbound_alias_and_unregistered_key_are_errors() {
    let mut latch = Latch::new();
    let root = start(&mut latch);
    let ctx = Context::new(&root);
    assert!(matches!(
        ctx.get_by_alias(SPEAKER),
        Err(Error::UnboundAlias(Alias(10)))
    ));
    assert!(matches!(ctx.resolve(SPEAKER), Err(Error::UnboundAlias(Alias(10)))));
    assert!(matches!(
        ctx.get_by_key(Key(99)),
        Err(Error::UnregisteredKey(Key(99)))
    ));
    let dangling = Context::compose(
        &root,
        &vec![Binding { alias: SPEAKER, key: Key(99) }],
        &vec![],
    )
    .unwrap();
    assert!(matches!(
        dangling.get_by_alias(SPEAKER),
        Err(Error::UnregisteredKey(Key(99)))
    ));
}

struct B;

impl B {
    fn test(&self) -> &'static str {
        println!("test b");
        "hello this is b"
    }

    fn test2(&self, ctx: &Context<B>) {
        println!("test b with {} aliases in reach", ctx.aliases().len());
    }
}

fn init_the_b(_ctx: &InitCtx<B>) -> Result<B, Error> {
    Ok(B)
}

#[test]
fn test_b() {
    let mut latch = Latch::new();
    let mut ledger: Ledger<fn(&InitCtx<B>) -> Result<B, Error>> = Ledger::new();
    ledger.register(Key(0), init_the_b, true);
    let root = Ctx::new(&mut latch, CfgSource::new(), ledger).unwrap();
    let ctx = Context::new(&root);
    let x = &ctx;

    let b = x.get_by_key(Key(0)).unwrap();
    assert_eq!(b.test(), "hello this is b");
    b.test2(x);
}
