//! The initializing phase: the context that initializers work in, and the
//! run that brings the registered beans up in the order of registration.

use crate::config::{CfgSource, ConfigSource, IsConfig, Plain};
use crate::ctx::Ctx;
use crate::error::{Error, Violation};
use crate::key::Key;
use crate::ledger::{finalizers_of, keys_of, repeats, Entry, Ledger};
use crate::life::{InitPhase, Place};
use crate::place::Slot;
use crate::registry::Registry;
use vstd::prelude::*;

verus! {

/// How far an initializing context has come.
#[derive(Clone, Copy, Debug, PartialEq, Eq, Structural)]
pub enum Stage {
    /// No ledger was run yet.
    Fresh,
    /// The initializers of a ledger are running.
    Running,
    /// Every initializer of the ledger has run and succeeded.
    Ran,
    /// The ledger was refused, or one of its initializers failed.
    Failed,
}

/// The context of the initializing phase. It holds the phase token, the
/// configuration source and the places of the registered beans, runs the
/// ledger once, and turns into the active context only after every
/// initializer has succeeded.
pub struct InitCtx<B> {
    phase: InitPhase,
    config: CfgSource,
    registry: Registry<B>,
    stage: Stage,
}

/// What a lookup of `key` gives where the keys `keys` are registered and
/// their places hold `slots`: the bean; or that the key is not registered; or
/// why its place refuses.
pub open spec fn bean_in<B>(keys: Seq<Key>, slots: Seq<Slot<B>>, key: Key) -> Result<B, Error> {
    if !keys.contains(key) {
        Err(Error::UnregisteredKey(key))
    } else {
        match slots[keys.index_of(key)] {
            Slot::Occupied(bean) => Ok(bean),
            Slot::Vacant => Err(Error::ContractViolation(Violation::NotInitialized)),
            Slot::Dropped => Err(Error::ContractViolation(Violation::AlreadyDropped)),
        }
    }
}

/// The slots of `n` places of which the first hold `beans`, one each, and the
/// others wait for their value.
pub open spec fn filled<B>(beans: Seq<B>, n: nat) -> Seq<Slot<B>> {
    Seq::new(
        n,
        |i: int|
            if i < beans.len() {
                Slot::Occupied(beans[i])
            } else {
                Slot::Vacant
            },
    )
}

/// Whether `ctx` is the context that the initializer of an entry of `entries`
/// finds when the entries before it have constructed `beans`: it answers from
/// `source`, every entry has its place, the places of the entries before hold
/// their beans, and all others are vacant.
pub open spec fn seen_by<B, I>(
    ctx: InitCtx<B>,
    source: CfgSource,
    entries: Seq<Entry<I>>,
    beans: Seq<B>,
) -> bool {
    &&& ctx.wf()
    &&& ctx.source() == source
    &&& ctx.stage() == Stage::Running
    &&& ctx.keys() == keys_of(entries)
    &&& ctx.finalizers() == finalizers_of(entries)
    &&& ctx.slots() == filled(beans, entries.len())
}

/// Whether the first initializers of `entries` ran one after the other, in
/// the order of registration, and constructed `beans`: the initializer of
/// entry `i` found the context `trace[i]`, in which the beans of the entries
/// before it were in their places and no other, and gave `beans[i]`.
pub open spec fn init_run<B, I: Fn(&InitCtx<B>) -> Result<B, Error>>(
    source: CfgSource,
    entries: Seq<Entry<I>>,
    trace: Seq<InitCtx<B>>,
    beans: Seq<B>,
) -> bool {
    &&& trace.len() == beans.len()
    &&& beans.len() <= entries.len()
    &&& forall|i: int|
        0 <= i < beans.len() ==> seen_by(#[trigger] trace[i], source, entries, beans.take(i))
            && call_ensures(entries[i].init, (&trace[i],), Ok::<B, Error>(beans[i]))
}

/// Whether a run of `entries` against `source` can succeed with the beans
/// `beans`: no key is registered twice, and every initializer ran in its turn
/// and gave its bean.
pub open spec fn run_succeeds<B, I: Fn(&InitCtx<B>) -> Result<B, Error>>(
    source: CfgSource,
    entries: Seq<Entry<I>>,
    beans: Seq<B>,
) -> bool {
    &&& beans.len() == entries.len()
    &&& forall|at: int| 0 <= at < entries.len() ==> !repeats(keys_of(entries), at)
    &&& exists|trace: Seq<InitCtx<B>>| init_run(source, entries, trace, beans)
}

/// Whether a run of `entries` against `source` can fail with `error` after
/// the initializers before the failing one have constructed `beans`. Either
/// the ledger is refused before any initializer runs, for the first key that
/// is registered a second time; or the initializers before entry
/// `beans.len()` ran in their turn, and that entry's initializer failed with
/// the cause that `error` carries.
pub open spec fn run_fails<B, I: Fn(&InitCtx<B>) -> Result<B, Error>>(
    source: CfgSource,
    entries: Seq<Entry<I>>,
    beans: Seq<B>,
    error: Error,
) -> bool {
    ||| {
        &&& beans.len() == 0
        &&& exists|at: int|
            {
                &&& 0 <= at < entries.len()
                &&& #[trigger] repeats(keys_of(entries), at)
                &&& forall|j: int| 0 <= j < at ==> !repeats(keys_of(entries), j)
                &&& error == Error::DuplicatedKey(entries[at].key)
            }
    }
    ||| {
        &&& beans.len() < entries.len()
        &&& forall|at: int| 0 <= at < entries.len() ==> !repeats(keys_of(entries), at)
        &&& exists|trace: Seq<InitCtx<B>>| init_run(source, entries, trace, beans)
        &&& exists|seen: InitCtx<B>, cause: Error|
            {
                &&& seen_by(seen, source, entries, beans)
                &&& #[trigger] call_ensures(
                    entries[beans.len() as int].init,
                    (&seen,),
                    Err::<B, Error>(cause),
                )
                &&& error == (Error::InitFailed {
                    entry: beans.len() as usize,
                    key: entries[beans.len() as int].key,
                    cause: Box::new(cause),
                })
            }
    }
}

impl<B> InitCtx<B> {
    /// The configuration source of the context.
    pub closed spec fn source(&self) -> CfgSource {
        self.config
    }

    /// How far the context has come.
    pub closed spec fn stage(&self) -> Stage {
        self.stage
    }

    /// The registered keys, in the order of registration.
    pub closed spec fn keys(&self) -> Seq<Key> {
        self.registry.keys()
    }

    /// For each registered bean, whether it is torn down at the end.
    pub closed spec fn finalizers(&self) -> Seq<bool> {
        self.registry.finalizers()
    }

    /// What the place of each registered bean holds.
    pub closed spec fn slots(&self) -> Seq<Slot<B>> {
        self.registry.slots()
    }

    /// The invariant of the context.
    pub closed spec fn wf(&self) -> bool {
        &&& self.registry.wf()
        &&& forall|i: int| 0 <= i < self.slots().len() ==> !(#[trigger] self.slots()[i] is Dropped)
        &&& self.stage == Stage::Fresh ==> self.keys().len() == 0
        &&& self.stage == Stage::Ran ==> forall|i: int|
            0 <= i < self.slots().len() ==> #[trigger] self.slots()[i] is Occupied
    }

    /// What a lookup of `key` gives in this context.
    pub open spec fn bean(&self, key: Key) -> Result<B, Error> {
        bean_in(self.keys(), self.slots(), key)
    }

    /// A context that has run nothing yet.
    pub fn new(phase: InitPhase, config: CfgSource) -> (ctx: Self)
        ensures
            ctx.wf(),
            ctx.source() == config,
            ctx.stage() == Stage::Fresh,
            ctx.keys() == Seq::<Key>::empty(),
            ctx.finalizers() == Seq::<bool>::empty(),
            ctx.slots() == Seq::<Slot<B>>::empty(),
    {
        InitCtx { phase, config, registry: Registry::new(), stage: Stage::Fresh }
    }

    /// Gives the phase token back and lets go of everything else.
    pub fn into_phase(self) -> InitPhase {
        self.phase
    }

    /// How far the context has come.
    pub fn progress(&self) -> (stage: Stage)
        ensures
            stage == self.stage(),
    {
        self.stage
    }

    /// The bean registered for `key`, for an initializer that depends on it.
    /// It is there once its own initializer has run: a bean of a later entry
    /// is refused as not initialized, and a key that no entry registers as
    /// unregistered.
    pub fn get(&self, key: Key) -> (bean: Result<&B, Error>)
        requires
            self.wf(),
        ensures
            match bean {
                Ok(b) => self.bean(key) == Ok::<B, Error>(*b),
                Err(e) => self.bean(key) == Err::<B, Error>(e),
            },
    {
        match self.registry.find(key) {
            None => Err(Error::UnregisteredKey(key)),
            Some(at) => {
                match self.registry.place(at).held() {
                    Some(b) => Ok(b),
                    None => Err(Error::ContractViolation(Violation::NotInitialized)),
                }
            },
        }
    }

    /// Registers the entries of `ledger`, each with a vacant place.
    fn enroll<I>(&mut self, ledger: &Ledger<I>)
        requires
            old(self).wf(),
            old(self).stage() == Stage::Fresh,
            forall|at: int| 0 <= at < ledger@.len() ==> !repeats(keys_of(ledger@), at),
        ensures
            seen_by(*final(self), old(self).source(), ledger@, Seq::<B>::empty()),
    {
        let n = ledger.len();
        let mut at: usize = 0;
        while at < n
            invariant
                n == ledger@.len(),
                0 <= at <= n,
                self.registry.wf(),
                self.config == old(self).config,
                forall|j: int| 0 <= j < ledger@.len() ==> !repeats(keys_of(ledger@), j),
                self.registry.keys() == keys_of(ledger@).take(at as int),
                self.registry.finalizers() == finalizers_of(ledger@).take(at as int),
                self.registry.slots() == Seq::new(at as nat, |i: int| Slot::<B>::Vacant),
            decreases n - at,
        {
            let entry = ledger.entry(at);
            proof {
                let keys = keys_of(ledger@);
                if self.registry.has(entry.key) {
                    let i = self.registry.keys().index_of(entry.key);
                    assert(keys[i] == keys[at as int]);
                    assert(repeats(keys, at as int));
                }
            }
            self.registry.add(entry.key, entry.finalize);
            at = at + 1;
            assert(self.registry.keys() =~= keys_of(ledger@).take(at as int));
            assert(self.registry.finalizers() =~= finalizers_of(ledger@).take(at as int));
            assert(self.registry.slots() =~= Seq::new(at as nat, |i: int| Slot::<B>::Vacant));
        }
        self.stage = Stage::Running;
        assert(self.keys() =~= keys_of(ledger@));
        assert(self.finalizers() =~= finalizers_of(ledger@));
        assert(self.slots() =~= filled(Seq::<B>::empty(), ledger@.len()));
    }

    /// Writes `bean` into the vacant place at `at`.
    fn install(&mut self, at: usize, bean: B)
        requires
            old(self).wf(),
            old(self).stage() == Stage::Running,
            at < old(self).slots().len(),
            old(self).slots()[at as int] is Vacant,
        ensures
            final(self).wf(),
            final(self).stage() == Stage::Running,
            final(self).source() == old(self).source(),
            final(self).keys() == old(self).keys(),
            final(self).finalizers() == old(self).finalizers(),
            final(self).slots() == old(self).slots().update(at as int, Slot::Occupied(bean)),
    {
        let place = self.registry.place_mut(at);
        match place.initialize(&mut self.phase) {
            Ok(handle) => {
                handle.write(bean);
            },
            Err(_) => {
                assert(false);
            },
        }
    }

    /// Runs `ledger`, once. The ledger is refused, before any initializer
    /// runs, if a key is registered twice in it. Else every entry gets a
    /// vacant place, and the initializers run one after the other in the
    /// order of registration, each against the context as those before it
    /// have left it; what an initializer gives is written into the place of
    /// its entry. The first failure ends the run: the places written so far
    /// keep their beans, and the error names the entry that failed and
    /// carries its cause. A context that has run a ledger before refuses.
    pub fn run_init<I: Fn(&InitCtx<B>) -> Result<B, Error>>(&mut self, ledger: Ledger<I>) -> (outcome:
        Result<(), Error>)
        requires
            old(self).wf(),
            forall|i: int, ctx: InitCtx<B>|
                0 <= i < ledger@.len() && ctx.wf() ==> #[trigger] call_requires(
                    ledger@[i].init,
                    (&ctx,),
                ),
        ensures
            final(self).wf(),
            final(self).source() == old(self).source(),
            old(self).stage() != Stage::Fresh ==> {
                &&& outcome matches Err(e)
                &&& e == Error::ContractViolation(Violation::AlreadyStarted)
                &&& final(self).stage() == old(self).stage()
                &&& final(self).keys() == old(self).keys()
                &&& final(self).finalizers() == old(self).finalizers()
                &&& final(self).slots() == old(self).slots()
            },
            old(self).stage() == Stage::Fresh ==> match outcome {
                Ok(()) => {
                    &&& final(self).stage() == Stage::Ran
                    &&& final(self).keys() == keys_of(ledger@)
                    &&& final(self).finalizers() == finalizers_of(ledger@)
                    &&& exists|beans: Seq<B>|
                        {
                            &&& run_succeeds(old(self).source(), ledger@, beans)
                            &&& #[trigger] filled(beans, ledger@.len()) == final(self).slots()
                        }
                },
                Err(e) => {
                    &&& final(self).stage() == Stage::Failed
                    &&& exists|beans: Seq<B>|
                        {
                            &&& run_fails(old(self).source(), ledger@, beans, e)
                            &&& #[trigger] filled(beans, final(self).keys().len())
                                == final(self).slots()
                        }
                    &&& e is DuplicatedKey ==> final(self).keys().len() == 0
                    &&& e is InitFailed ==> final(self).keys() == keys_of(ledger@)
                        && final(self).finalizers() == finalizers_of(ledger@)
                },
            },
    {
        match self.stage {
            Stage::Fresh => {},
            _ => {
                return Err(Error::ContractViolation(Violation::AlreadyStarted));
            },
        }
        let ghost source = self.source();
        match ledger.first_repeat() {
            Some(at) => {
                self.stage = Stage::Failed;
                let key = ledger.entry(at).key;
                proof {
                    let beans = Seq::<B>::empty();
                    assert(filled(beans, 0) =~= self.slots());
                    assert(run_fails(source, ledger@, beans, Error::DuplicatedKey(key)));
                }
                return Err(Error::DuplicatedKey(key));
            },
            None => {},
        }
        assert forall|at: int| 0 <= at < ledger@.len() implies !repeats(keys_of(ledger@), at) by {
            if repeats(keys_of(ledger@), at) {
                let i = choose|i: int| 0 <= i < at && keys_of(ledger@)[i] == keys_of(ledger@)[at];
                assert(keys_of(ledger@)[i] != keys_of(ledger@)[at]);
            }
        }
        self.enroll(&ledger);
        let n = ledger.len();
        let ghost mut trace = Seq::<InitCtx<B>>::empty();
        let ghost mut beans = Seq::<B>::empty();
        let mut done: usize = 0;
        while done < n
            invariant
                n == ledger@.len(),
                0 <= done <= n,
                beans.len() == done,
                source == old(self).source(),
                old(self).stage() == Stage::Fresh,
                forall|at: int| 0 <= at < ledger@.len() ==> !repeats(keys_of(ledger@), at),
                forall|i: int, ctx: InitCtx<B>|
                    0 <= i < ledger@.len() && ctx.wf() ==> #[trigger] call_requires(
                        ledger@[i].init,
                        (&ctx,),
                    ),
                init_run(source, ledger@, trace, beans),
                seen_by(*self, source, ledger@, beans),
            decreases n - done,
        {
            let ghost seen = *self;
            let entry = ledger.entry(done);
            match (entry.init)(&*self) {
                Ok(bean) => {
                    let ghost b = bean;
                    self.install(done, bean);
                    proof {
                        let longer = beans.push(b);
                        let more = trace.push(seen);
                        assert(longer.take(done as int) =~= beans);
                        assert forall|i: int| 0 <= i < longer.len() implies seen_by(
                            #[trigger] more[i],
                            source,
                            ledger@,
                            longer.take(i),
                        ) && call_ensures(ledger@[i].init, (&more[i],), Ok::<B, Error>(longer[i])) by {
                            if i < done {
                                assert(more[i] == trace[i]);
                                assert(longer.take(i) =~= beans.take(i));
                            }
                        }
                        assert(self.slots() =~= filled(longer, ledger@.len()));
                        trace = more;
                        beans = longer;
                    }
                },
                Err(cause) => {
                    self.stage = Stage::Failed;
                    let failure = Error::InitFailed {
                        entry: done,
                        key: entry.key,
                        cause: Box::new(cause),
                    };
                    proof {
                        assert(call_ensures(entry.init, (&seen,), Err::<B, Error>(cause)));
                        assert(run_fails(source, ledger@, beans, failure));
                        assert(filled(beans, self.keys().len()) =~= self.slots());
                    }
                    return Err(failure);
                },
            }
            done = done + 1;
        }
        self.stage = Stage::Ran;
        proof {
            assert(run_succeeds(source, ledger@, beans));
            assert(filled(beans, ledger@.len()) =~= self.slots());
        }
        Ok(())
    }

    /// Ends the initializing phase. A context whose ledger has run, every
    /// initializer with success, becomes the active context of the same
    /// beans; any other is refused as not started.
    pub fn complete(self) -> (active: Result<Ctx<B>, Error>)
        requires
            self.wf(),
        ensures
            match active {
                Ok(ctx) => {
                    &&& self.stage() == Stage::Ran
                    &&& ctx.wf()
                    &&& !ctx.is_finalized()
                    &&& ctx.keys() == self.keys()
                    &&& ctx.finalizers() == self.finalizers()
                    &&& ctx.slots() == self.slots()
                },
                Err(e) => self.stage() != Stage::Ran && e == Error::ContractViolation(
                    Violation::NotStarted,
                ),
            },
    {
        match self.stage {
            Stage::Ran => Ok(Ctx::activate(self.phase.complete(), self.registry)),
            _ => Err(Error::ContractViolation(Violation::NotStarted)),
        }
    }
}

impl<B> ConfigSource for InitCtx<B> {
    open spec fn origin(&self) -> Map<Seq<char>, Plain> {
        self.source()@
    }

    fn get_config<T: IsConfig>(&self, key: &str) -> (value: Result<T, Error>) {
        self.config.get_config(key)
    }

    fn get_config_or<T: IsConfig>(&self, key: &str, default: T) -> (value: Result<T, Error>) {
        self.config.get_config_or(key, default)
    }
}

} // verus!
