//! The active phase: the context that serves lookups by key, and the
//! teardown that ends it.

use crate::config::CfgSource;
use crate::error::{Error, Violation};
use crate::init::{bean_in, filled, run_fails, run_succeeds, InitCtx};
use crate::key::Key;
use crate::ledger::{finalizers_of, keys_of, Hooks, Ledger};
use crate::life::{ActivePhase, InitPhase, Latch, Place};
use crate::place::Slot;
use crate::registry::Registry;
use vstd::prelude::*;

verus! {

/// The context of the active phase: the token of the phase and the places of
/// the beans that were brought up.
pub struct Ctx<B> {
    phase: ActivePhase,
    registry: Registry<B>,
    finalized: bool,
}

/// The keys of the beans that a teardown drops, in the order in which it
/// drops them: those of `keys` whose flag in `finalizers` is set, in the
/// order of registration.
pub open spec fn teardown_order(keys: Seq<Key>, finalizers: Seq<bool>) -> Seq<Key>
    decreases keys.len(),
{
    if keys.len() == 0 || finalizers.len() != keys.len() {
        Seq::empty()
    } else if finalizers.last() {
        teardown_order(keys.drop_last(), finalizers.drop_last()).push(keys.last())
    } else {
        teardown_order(keys.drop_last(), finalizers.drop_last())
    }
}

/// What the places hold after a teardown: those whose flag in `finalizers`
/// is set have dropped their bean, the others are as they were.
pub open spec fn torn_down<B>(slots: Seq<Slot<B>>, finalizers: Seq<bool>) -> Seq<Slot<B>> {
    Seq::new(
        slots.len(),
        |i: int|
            if finalizers[i] {
                Slot::Dropped
            } else {
                slots[i]
            },
    )
}

/// Whether every hook of `hooks` has run on the active context `ctx`.
pub open spec fn post_init_run<B, P: Fn(&Ctx<B>)>(hooks: Seq<P>, ctx: Ctx<B>) -> bool {
    forall|i: int| 0 <= i < hooks.len() ==> #[trigger] call_ensures(hooks[i], (&ctx,), ())
}

impl<B> Ctx<B> {
    /// Whether the context was finalized.
    pub closed spec fn is_finalized(&self) -> bool {
        self.finalized
    }

    /// The registered keys, in the order of registration.
    pub closed spec fn keys(&self) -> Seq<Key> {
        self.registry.keys()
    }

    /// For each registered bean, whether it is torn down at the end.
    pub closed spec fn finalizers(&self) -> Seq<bool> {
        self.registry.finalizers()
    }

    /// What the place of each registered bean holds.
    pub closed spec fn slots(&self) -> Seq<Slot<B>> {
        self.registry.slots()
    }

    /// The invariant of the context: until it is finalized every place holds
    /// its bean; afterwards those that are torn down at the end have dropped
    /// theirs.
    pub closed spec fn wf(&self) -> bool {
        &&& self.registry.wf()
        &&& forall|i: int|
            0 <= i < self.slots().len() ==> #[trigger] self.slots()[i] is Occupied || (
            self.finalized && self.finalizers()[i] && self.slots()[i] is Dropped)
        &&& forall|i: int|
            0 <= i < self.slots().len() && self.finalized && self.finalizers()[i]
                ==> #[trigger] self.slots()[i] is Dropped
    }

    /// What a lookup of `key` gives in this context: nothing but a refusal
    /// once the context is finalized; before that, the bean registered for
    /// `key`, or that no entry is registered for it.
    pub open spec fn bean(&self, key: Key) -> Result<B, Error> {
        if self.is_finalized() {
            Err(Error::ContractViolation(Violation::Finalized))
        } else {
            bean_in(self.keys(), self.slots(), key)
        }
    }

    /// Once a context is finalized, every lookup in it is refused.
    pub proof fn lemma_finalized_refuses(&self, key: Key)
        requires
            self.is_finalized(),
        ensures
            self.bean(key) == Err::<B, Error>(Error::ContractViolation(Violation::Finalized)),
    {
    }

    /// Brings a kernel up: acquires `latch`, registers the entries of
    /// `ledger`, runs their initializers in the order of registration against
    /// `config`, and ends the initializing phase. A latch that was acquired
    /// before refuses, and nothing runs; a ledger that is refused, or an
    /// initializer that fails, ends the start with that error.
    pub fn new<I: Fn(&InitCtx<B>) -> Result<B, Error>>(
        latch: &mut Latch,
        config: CfgSource,
        ledger: Ledger<I>,
    ) -> (started: Result<Ctx<B>, Error>)
        requires
            forall|i: int, ctx: InitCtx<B>|
                0 <= i < ledger@.len() && ctx.wf() ==> #[trigger] call_requires(
                    ledger@[i].init,
                    (&ctx,),
                ),
        ensures
            *final(latch) == old(latch).after(1),
            final(latch).is_taken(),
            !old(latch).grants() ==> (started matches Err(e) && e == Error::DuplicatedInit(
                "InitPhase",
            )),
            old(latch).grants() ==> match started {
                Ok(ctx) => {
                    &&& ctx.wf()
                    &&& !ctx.is_finalized()
                    &&& ctx.keys() == keys_of(ledger@)
                    &&& ctx.finalizers() == finalizers_of(ledger@)
                    &&& exists|beans: Seq<B>|
                        {
                            &&& run_succeeds(config, ledger@, beans)
                            &&& #[trigger] filled(beans, ledger@.len()) == ctx.slots()
                        }
                },
                Err(e) => exists|beans: Seq<B>| #[trigger] run_fails(config, ledger@, beans, e),
            },
    {
        let phase = match InitPhase::take(latch) {
            Ok(phase) => phase,
            Err(e) => {
                return Err(e);
            },
        };
        let mut init = InitCtx::new(phase, config);
        match init.run_init(ledger) {
            Ok(()) => {},
            Err(e) => {
                return Err(e);
            },
        }
        init.complete()
    }

    /// Runs `hooks` on this context, one after the other in the order of
    /// registration.
    pub fn post_init<P: Fn(&Ctx<B>)>(&self, hooks: &Hooks<P>)
        requires
            forall|i: int| 0 <= i < hooks@.len() ==> #[trigger] call_requires(hooks@[i], (self,)),
        ensures
            post_init_run(hooks@, *self),
    {
        let n = hooks.len();
        let mut at: usize = 0;
        while at < n
            invariant
                n == hooks@.len(),
                0 <= at <= n,
                forall|i: int|
                    0 <= i < hooks@.len() ==> #[trigger] call_requires(hooks@[i], (self,)),
                forall|i: int| 0 <= i < at ==> #[trigger] call_ensures(hooks@[i], (self,), ()),
            decreases n - at,
        {
            (hooks.hook(at))(self);
            at = at + 1;
        }
    }

    /// Brings a kernel up, hooks and all: acquires `latch`, registers the
    /// entries of `ledger`, runs their initializers in the order of
    /// registration against `config`, ends the initializing phase, and runs
    /// `hooks` on the active context, in the order of registration, before
    /// the context is handed out. Where the start fails no hook runs.
    pub fn from_cfg<I: Fn(&InitCtx<B>) -> Result<B, Error>, P: Fn(&Ctx<B>)>(
        latch: &mut Latch,
        config: CfgSource,
        ledger: Ledger<I>,
        hooks: Hooks<P>,
    ) -> (started: Result<Ctx<B>, Error>)
        requires
            forall|i: int, ctx: InitCtx<B>|
                0 <= i < ledger@.len() && ctx.wf() ==> #[trigger] call_requires(
                    ledger@[i].init,
                    (&ctx,),
                ),
            forall|i: int, ctx: Ctx<B>|
                0 <= i < hooks@.len() && ctx.wf() && !ctx.is_finalized() ==> #[trigger] call_requires(
                    hooks@[i],
                    (&ctx,),
                ),
        ensures
            *final(latch) == old(latch).after(1),
            final(latch).is_taken(),
            !old(latch).grants() ==> (started matches Err(e) && e == Error::DuplicatedInit(
                "InitPhase",
            )),
            old(latch).grants() ==> match started {
                Ok(ctx) => {
                    &&& ctx.wf()
                    &&& !ctx.is_finalized()
                    &&& ctx.keys() == keys_of(ledger@)
                    &&& ctx.finalizers() == finalizers_of(ledger@)
                    &&& exists|beans: Seq<B>|
                        {
                            &&& run_succeeds(config, ledger@, beans)
                            &&& #[trigger] filled(beans, ledger@.len()) == ctx.slots()
                        }
                    &&& post_init_run(hooks@, ctx)
                },
                Err(e) => exists|beans: Seq<B>| #[trigger] run_fails(config, ledger@, beans, e),
            },
    {
        match Ctx::new(latch, config, ledger) {
            Ok(ctx) => {
                ctx.post_init(&hooks);
                Ok(ctx)
            },
            Err(e) => Err(e),
        }
    }

    /// Whether the context was finalized.
    pub fn finalized(&self) -> (finalized: bool)
        ensures
            finalized == self.is_finalized(),
    {
        self.finalized
    }

    /// The number of registered beans.
    pub fn len(&self) -> (n: usize)
        ensures
            n == self.keys().len(),
    {
        self.registry.len()
    }

    /// The bean registered for `key`.
    pub fn get(&self, key: Key) -> (bean: Result<&B, Error>)
        requires
            self.wf(),
        ensures
            match bean {
                Ok(b) => self.bean(key) == Ok::<B, Error>(*b),
                Err(e) => self.bean(key) == Err::<B, Error>(e),
            },
    {
        if self.finalized {
            return Err(Error::ContractViolation(Violation::Finalized));
        }
        match self.registry.find(key) {
            None => Err(Error::UnregisteredKey(key)),
            Some(at) => self.registry.place(at).get(&self.phase),
        }
    }

    /// The bean registered for `key`, to change it. Nothing else changes.
    pub fn get_mut(&mut self, key: Key) -> (bean: Result<&mut B, Error>)
        requires
            old(self).wf(),
        ensures
            final(self).wf(),
            final(self).is_finalized() == old(self).is_finalized(),
            final(self).keys() == old(self).keys(),
            final(self).finalizers() == old(self).finalizers(),
            match bean {
                Ok(b) => {
                    &&& old(self).bean(key) == Ok::<B, Error>(*b)
                    &&& final(self).slots() == old(self).slots().update(
                        old(self).keys().index_of(key),
                        Slot::Occupied(*final(b)),
                    )
                },
                Err(e) => old(self).bean(key) == Err::<B, Error>(e) && final(self).slots() == old(
                    self,
                ).slots(),
            },
    {
        if self.finalized {
            return Err(Error::ContractViolation(Violation::Finalized));
        }
        match self.registry.find(key) {
            None => Err(Error::UnregisteredKey(key)),
            Some(at) => {
                let place = self.registry.place_mut(at);
                place.get_mut(&mut self.phase)
            },
        }
    }

    /// Finalizes the context, once: the beans that are torn down at the end
    /// are dropped in the order of registration, and their keys are handed
    /// back in that order. Afterwards every lookup is refused, and so is a
    /// second teardown.
    pub fn finalize(&mut self) -> (torn: Result<Vec<Key>, Error>)
        requires
            old(self).wf(),
        ensures
            final(self).wf(),
            final(self).is_finalized(),
            final(self).keys() == old(self).keys(),
            final(self).finalizers() == old(self).finalizers(),
            match torn {
                Ok(keys) => {
                    &&& !old(self).is_finalized()
                    &&& keys@ == teardown_order(old(self).keys(), old(self).finalizers())
                    &&& final(self).slots() == torn_down(old(self).slots(), old(self).finalizers())
                },
                Err(e) => {
                    &&& old(self).is_finalized()
                    &&& e == Error::ContractViolation(Violation::Finalized)
                    &&& final(self).slots() == old(self).slots()
                },
            },
    {
        if self.finalized {
            return Err(Error::ContractViolation(Violation::Finalized));
        }
        let n = self.registry.len();
        let mut torn: Vec<Key> = Vec::new();
        let mut at: usize = 0;
        while at < n
            invariant
                n == old(self).keys().len(),
                0 <= at <= n,
                old(self).wf(),
                !old(self).finalized,
                !self.finalized,
                self.registry.wf(),
                self.registry.keys() == old(self).keys(),
                self.registry.finalizers() == old(self).finalizers(),
                self.registry.slots() == Seq::new(
                    n as nat,
                    |i: int|
                        if i < at && old(self).finalizers()[i] {
                            Slot::Dropped
                        } else {
                            old(self).slots()[i]
                        },
                ),
                torn@ == teardown_order(
                    old(self).keys().take(at as int),
                    old(self).finalizers().take(at as int),
                ),
            decreases n - at,
        {
            let ghost keys = old(self).keys();
            let ghost flags = old(self).finalizers();
            assert(keys.take(at + 1).drop_last() =~= keys.take(at as int));
            assert(flags.take(at + 1).drop_last() =~= flags.take(at as int));
            if self.registry.finalizer_at(at) {
                let key = self.registry.key_at(at);
                let place = self.registry.place_mut(at);
                assert(place@ is Occupied);
                match place.deinitialize(&mut self.phase) {
                    Ok(()) => {},
                    Err(_) => {
                        assert(false);
                    },
                }
                torn.push(key);
            }
            at = at + 1;
            assert(self.registry.slots() =~= Seq::new(
                n as nat,
                |i: int|
                    if i < at && old(self).finalizers()[i] {
                        Slot::Dropped
                    } else {
                        old(self).slots()[i]
                    },
            ));
        }
        self.finalized = true;
        assert(old(self).keys().take(n as int) =~= old(self).keys());
        assert(old(self).finalizers().take(n as int) =~= old(self).finalizers());
        assert(self.slots() =~= torn_down(old(self).slots(), old(self).finalizers()));
        Ok(torn)
    }

    /// The active context over `registry`, all of whose places hold a bean.
    pub(crate) fn activate(phase: ActivePhase, registry: Registry<B>) -> (ctx: Self)
        requires
            registry.wf(),
            forall|i: int| 0 <= i < registry.slots().len() ==> #[trigger] registry.slots()[i] is Occupied,
        ensures
            ctx.wf(),
            !ctx.is_finalized(),
            ctx.keys() == registry.keys(),
            ctx.finalizers() == registry.finalizers(),
            ctx.slots() == registry.slots(),
    {
        Ctx { phase, registry, finalized: false }
    }
}

} // verus!
