//! Contexts: handles on the active kernel, each with the alias table that is
//! visible from one point of the composition.

use crate::alias::{ambiguous, composition, tables_of, AliasTable};
use crate::ctx::Ctx;
use crate::error::Error;
use crate::key::{Alias, Binding, Key};
use vstd::prelude::*;

verus! {

/// A handle on the active kernel `root`, with the alias table of one
/// composition point. Contexts over one kernel share its beans; each
/// resolves aliases by its own table, which is fixed when the context is
/// made.
pub struct Context<'a, B> {
    root: &'a Ctx<B>,
    aliases: AliasTable,
}

impl<'a, B> View for Context<'a, B> {
    type V = Map<Alias, Key>;

    closed spec fn view(&self) -> Map<Alias, Key> {
        self.aliases@
    }
}

/// The alias tables of `parents`, in their order.
pub open spec fn views_of<'a, B>(parents: Seq<&Context<'a, B>>) -> Seq<Map<Alias, Key>> {
    Seq::new(parents.len(), |p: int| parents[p]@)
}

impl<'a, B> Context<'a, B> {
    /// The kernel that the context is a handle on.
    pub closed spec fn root(&self) -> &'a Ctx<B> {
        self.root
    }

    /// The invariant of a context: that of its kernel and of its table.
    pub closed spec fn wf(&self) -> bool {
        self.root.wf() && self.aliases.wf()
    }

    /// What a lookup of `alias` gives in this context: what a lookup of the
    /// key gives that the alias stands for here, or that the alias is bound
    /// to no key.
    pub open spec fn bean_by_alias(&self, alias: Alias) -> Result<B, Error> {
        if self@.contains_key(alias) {
            self.root().bean(self@[alias])
        } else {
            Err(Error::UnboundAlias(alias))
        }
    }

    /// The context of `root` that binds no alias.
    pub fn new(root: &'a Ctx<B>) -> (ctx: Self)
        requires
            root.wf(),
        ensures
            ctx.wf(),
            ctx.root() == root,
            ctx@ == Map::<Alias, Key>::empty(),
    {
        Context { root, aliases: AliasTable::new() }
    }

    /// Composes the context of `root` that declares `own` and wraps
    /// `parents`: its own declarations shadow what the parents hold, and what
    /// it does not declare it inherits. The composition is refused as
    /// ambiguous where the context would see one alias bound to two keys.
    pub fn compose(root: &'a Ctx<B>, own: &Vec<Binding>, parents: &Vec<&Context<'a, B>>) -> (ctx:
        Result<Self, Error>)
        requires
            root.wf(),
            forall|p: int| 0 <= p < parents@.len() ==> (#[trigger] parents@[p]).wf(),
        ensures
            match ctx {
                Ok(c) => {
                    &&& c.wf()
                    &&& c.root() == root
                    &&& c@ == composition(own@, views_of(parents@))
                    &&& forall|alias: Alias| !ambiguous(own@, views_of(parents@), alias)
                },
                Err(e) => exists|alias: Alias|
                    #[trigger] ambiguous(own@, views_of(parents@), alias) && e
                        == Error::AmbiguousAlias(alias),
            },
    {
        let mut tables: Vec<&AliasTable> = Vec::new();
        let mut p: usize = 0;
        while p < parents.len()
            invariant
                0 <= p <= parents@.len(),
                tables@.len() == p,
                forall|q: int| 0 <= q < parents@.len() ==> (#[trigger] parents@[q]).wf(),
                forall|q: int| 0 <= q < p ==> (#[trigger] tables@[q]).wf(),
                forall|q: int| 0 <= q < p ==> (#[trigger] tables@[q])@ == parents@[q]@,
            decreases parents@.len() - p,
        {
            tables.push(&parents[p].aliases);
            p = p + 1;
        }
        assert(tables_of(tables@) =~= views_of(parents@));
        match AliasTable::compose(own, &tables) {
            Ok(aliases) => Ok(Context { root, aliases }),
            Err(e) => Err(e),
        }
    }

    /// Composes the child of this context that declares `own`: a context of
    /// the same kernel that wraps this one.
    pub fn wrap(&self, own: &Vec<Binding>) -> (child: Result<Context<'a, B>, Error>)
        requires
            self.wf(),
        ensures
            match child {
                Ok(c) => {
                    &&& c.wf()
                    &&& c.root() == self.root()
                    &&& c@ == composition(own@, seq![self@])
                    &&& forall|alias: Alias| !ambiguous(own@, seq![self@], alias)
                },
                Err(e) => exists|alias: Alias|
                    #[trigger] ambiguous(own@, seq![self@], alias) && e == Error::AmbiguousAlias(
                        alias,
                    ),
            },
    {
        let mut parents: Vec<&AliasTable> = Vec::new();
        parents.push(&self.aliases);
        assert(tables_of(parents@) =~= seq![self@]);
        match AliasTable::compose(own, &parents) {
            Ok(aliases) => Ok(Context { root: self.root, aliases }),
            Err(e) => Err(e),
        }
    }

    /// The alias table of the context.
    pub fn aliases(&self) -> (table: &AliasTable)
        requires
            self.wf(),
        ensures
            table.wf(),
            table@ == self@,
    {
        &self.aliases
    }

    /// The key that `alias` stands for in this context: by a declaration of
    /// the context itself, or else by what it inherits. An alias that is
    /// bound nowhere on the way is refused as unbound.
    pub fn resolve(&self, alias: Alias) -> (key: Result<Key, Error>)
        requires
            self.wf(),
        ensures
            match key {
                Ok(k) => self@.contains_pair(alias, k),
                Err(e) => !self@.contains_key(alias) && e == Error::UnboundAlias(alias),
            },
    {
        self.aliases.resolve(alias)
    }

    /// The bean registered for `key`.
    pub fn get_by_key(&self, key: Key) -> (bean: Result<&'a B, Error>)
        requires
            self.wf(),
        ensures
            match bean {
                Ok(b) => self.root().bean(key) == Ok::<B, Error>(*b),
                Err(e) => self.root().bean(key) == Err::<B, Error>(e),
            },
    {
        self.root.get(key)
    }

    /// The bean that answers for `alias` in this context: the alias is
    /// resolved, and the bean of its key looked up.
    pub fn get_by_alias(&self, alias: Alias) -> (bean: Result<&'a B, Error>)
        requires
            self.wf(),
        ensures
            match bean {
                Ok(b) => self.bean_by_alias(alias) == Ok::<B, Error>(*b),
                Err(e) => self.bean_by_alias(alias) == Err::<B, Error>(e),
            },
    {
        match self.aliases.resolve(alias) {
            Ok(key) => self.root.get(key),
            Err(e) => Err(e),
        }
    }
}

} // verus!
