//! The alias algebra: how a context's own bindings and those of the contexts
//! that it wraps make up the one table that the context resolves aliases by.
//!
//! A binding that a context declares itself shadows every binding of the
//! same alias that its parents hold. An alias that the context does not
//! declare is inherited from the parents; where they disagree about its key
//! the composition is refused, whichever path each binding came by.

use crate::error::Error;
use crate::key::{Alias, Binding, Key};
use vstd::prelude::*;

verus! {

/// Whether `own` declares a binding for `alias`.
pub open spec fn declares(own: Seq<Binding>, alias: Alias) -> bool {
    exists|i: int| 0 <= i < own.len() && (#[trigger] own[i]).alias == alias
}

/// Whether a context that declares `own` and wraps contexts with the tables
/// `parents` is offered `key` for `alias`: by a declaration of its own where
/// it declares the alias, and by one of its parents where it does not.
pub open spec fn offers(
    own: Seq<Binding>,
    parents: Seq<Map<Alias, Key>>,
    alias: Alias,
    key: Key,
) -> bool {
    if declares(own, alias) {
        own.contains(Binding { alias, key })
    } else {
        exists|p: int| 0 <= p < parents.len() && (#[trigger] parents[p]).contains_pair(alias, key)
    }
}

/// Whether such a context is offered two different keys for `alias`.
pub open spec fn ambiguous(own: Seq<Binding>, parents: Seq<Map<Alias, Key>>, alias: Alias) -> bool {
    exists|k1: Key, k2: Key|
        #![trigger offers(own, parents, alias, k1), offers(own, parents, alias, k2)]
        k1 != k2 && offers(own, parents, alias, k1) && offers(own, parents, alias, k2)
}

/// The table of such a context: each alias that it is offered a key for,
/// with that key.
pub open spec fn composition(own: Seq<Binding>, parents: Seq<Map<Alias, Key>>) -> Map<Alias, Key> {
    Map::new(
        |alias: Alias| exists|key: Key| offers(own, parents, alias, key),
        |alias: Alias| choose|key: Key| offers(own, parents, alias, key),
    )
}

/// Whether no alias stands twice in `bindings`.
pub open spec fn unique_aliases(bindings: Seq<Binding>) -> bool {
    forall|i: int, j: int| 0 <= i < j < bindings.len() ==> bindings[i].alias != bindings[j].alias
}

/// The map from alias to key that `bindings` spell out.
pub open spec fn table_of(bindings: Seq<Binding>) -> Map<Alias, Key> {
    Map::new(
        |alias: Alias| declares(bindings, alias),
        |alias: Alias|
            bindings[choose|i: int| 0 <= i < bindings.len() && (#[trigger] bindings[i]).alias == alias].key,
    )
}

/// The tables of `parents`, in their order.
pub open spec fn tables_of(parents: Seq<&AliasTable>) -> Seq<Map<Alias, Key>> {
    Seq::new(parents.len(), |p: int| parents[p]@)
}

/// Where no alias stands twice, the map holds exactly the listed bindings.
pub proof fn lemma_table_of(bindings: Seq<Binding>)
    requires
        unique_aliases(bindings),
    ensures
        forall|alias: Alias, key: Key| #[trigger]
            table_of(bindings).contains_pair(alias, key) <==> bindings.contains(
                Binding { alias, key },
            ),
{
    assert forall|alias: Alias, key: Key| #[trigger]
        table_of(bindings).contains_pair(alias, key) <==> bindings.contains(
            Binding { alias, key },
        ) by {
        if table_of(bindings).contains_pair(alias, key) {
            let i = choose|i: int| 0 <= i < bindings.len() && (#[trigger] bindings[i]).alias == alias;
            assert(bindings[i] == Binding { alias, key });
        }
        if bindings.contains(Binding { alias, key }) {
            let j = bindings.index_of(Binding { alias, key });
            assert(bindings[j].alias == alias);
            let i = choose|i: int| 0 <= i < bindings.len() && (#[trigger] bindings[i]).alias == alias;
            if i < j {
                assert(bindings[i].alias != bindings[j].alias);
            } else if j < i {
                assert(bindings[j].alias != bindings[i].alias);
            }
        }
    }
}

/// Alias override. A context that declares `key` for `alias`, and no other
/// key, resolves `alias` to `key`, whatever its parents hold for that alias.
/// The parents are values of their own: what they resolve the alias to is
/// what it was.
pub proof fn lemma_alias_override(
    own: Seq<Binding>,
    parents: Seq<Map<Alias, Key>>,
    alias: Alias,
    key: Key,
)
    requires
        own.contains(Binding { alias, key }),
        !ambiguous(own, parents, alias),
    ensures
        composition(own, parents).contains_pair(alias, key),
{
    let i = own.index_of(Binding { alias, key });
    assert(own[i].alias == alias);
    assert(offers(own, parents, alias, key));
    let chosen = choose|k: Key| offers(own, parents, alias, k);
    assert(offers(own, parents, alias, chosen));
}

/// Inheritance. A context that does not declare `alias` resolves it as the
/// parent that binds it does, where no other parent binds it to another key.
pub proof fn lemma_alias_inherited(
    own: Seq<Binding>,
    parents: Seq<Map<Alias, Key>>,
    alias: Alias,
    key: Key,
    p: int,
)
    requires
        !declares(own, alias),
        !ambiguous(own, parents, alias),
        0 <= p < parents.len(),
        parents[p].contains_pair(alias, key),
    ensures
        composition(own, parents).contains_pair(alias, key),
{
    assert(offers(own, parents, alias, key));
    let chosen = choose|k: Key| offers(own, parents, alias, k);
    assert(offers(own, parents, alias, chosen));
}

/// An alias that neither the context declares nor any of its parents binds
/// is bound nowhere in the composition.
pub proof fn lemma_alias_unbound(own: Seq<Binding>, parents: Seq<Map<Alias, Key>>, alias: Alias)
    requires
        !declares(own, alias),
        forall|p: int| 0 <= p < parents.len() ==> !(#[trigger] parents[p]).contains_key(alias),
    ensures
        !composition(own, parents).contains_key(alias),
{
}

/// Diamond rejection. A context that does not declare `alias` and inherits
/// two different keys for it, from two of its parents, is ambiguous in that
/// alias: no table is composed for it.
pub proof fn lemma_diamond_rejected(
    own: Seq<Binding>,
    parents: Seq<Map<Alias, Key>>,
    alias: Alias,
    p: int,
    q: int,
)
    requires
        !declares(own, alias),
        0 <= p < parents.len(),
        0 <= q < parents.len(),
        parents[p].contains_key(alias),
        parents[q].contains_key(alias),
        parents[p][alias] != parents[q][alias],
    ensures
        ambiguous(own, parents, alias),
{
    assert(parents[p].contains_pair(alias, parents[p][alias]));
    assert(parents[q].contains_pair(alias, parents[q][alias]));
    assert(offers(own, parents, alias, parents[p][alias]));
    assert(offers(own, parents, alias, parents[q][alias]));
}

/// The alias table of one context: for each alias that the context can
/// resolve, the key that it stands for. It is fixed when the context is
/// composed.
pub struct AliasTable {
    bindings: Vec<Binding>,
}

impl View for AliasTable {
    type V = Map<Alias, Key>;

    closed spec fn view(&self) -> Map<Alias, Key> {
        table_of(self.bindings@)
    }
}

/// The place in `bindings` of the binding of `alias`, if there is one.
fn position(bindings: &Vec<Binding>, alias: Alias) -> (found: Option<usize>)
    ensures
        match found {
            Some(at) => at < bindings@.len() && bindings@[at as int].alias == alias,
            None => !declares(bindings@, alias),
        },
{
    let n = bindings.len();
    let mut at: usize = 0;
    while at < n
        invariant
            n == bindings@.len(),
            0 <= at <= n,
            forall|i: int| 0 <= i < at ==> (#[trigger] bindings@[i]).alias != alias,
        decreases n - at,
    {
        if bindings[at].alias == alias {
            return Some(at);
        }
        at = at + 1;
    }
    None
}

impl AliasTable {
    /// The invariant of a table: it binds no alias twice.
    pub closed spec fn wf(&self) -> bool {
        unique_aliases(self.bindings@)
    }

    /// The table that binds nothing.
    pub fn new() -> (table: Self)
        ensures
            table.wf(),
            table@ == Map::<Alias, Key>::empty(),
    {
        let table = AliasTable { bindings: Vec::new() };
        assert(table@ =~= Map::<Alias, Key>::empty());
        table
    }

    /// Composes the table of a context that declares `own` and wraps
    /// `parents`. The table holds each declaration of the context itself,
    /// and of each alias that the context does not declare what the parents
    /// hold for it. The composition is refused as ambiguous where the context
    /// declares two keys for one alias, and where it inherits two keys for
    /// one alias, from two parents; the error names such an alias.
    pub fn compose(own: &Vec<Binding>, parents: &Vec<&AliasTable>) -> (table: Result<
        AliasTable,
        Error,
    >)
        requires
            forall|p: int| 0 <= p < parents@.len() ==> (#[trigger] parents@[p]).wf(),
        ensures
            match table {
                Ok(t) => {
                    &&& t.wf()
                    &&& t@ == composition(own@, tables_of(parents@))
                    &&& forall|alias: Alias| !ambiguous(own@, tables_of(parents@), alias)
                },
                Err(e) => exists|alias: Alias|
                    #[trigger] ambiguous(own@, tables_of(parents@), alias) && e
                        == Error::AmbiguousAlias(alias),
            },
    {
        let ghost tables = tables_of(parents@);
        let mut out: Vec<Binding> = Vec::new();
        let mut i: usize = 0;
        while i < own.len()
            invariant
                0 <= i <= own@.len(),
                tables == tables_of(parents@),
                unique_aliases(out@),
                forall|j: int| 0 <= j < i ==> out@.contains(#[trigger] own@[j]),
                forall|k: int| 0 <= k < out@.len() ==> own@.contains(#[trigger] out@[k]),
            decreases own@.len() - i,
        {
            let b = own[i];
            match position(&out, b.alias) {
                Some(at) => {
                    if out[at].key != b.key {
                        proof {
                            let earlier = out@[at as int];
                            assert(own@.contains(earlier));
                            assert(own@[i as int] == b);
                            assert(own@.contains(b));
                            assert(declares(own@, b.alias));
                            assert(offers(own@, tables, b.alias, earlier.key));
                            assert(offers(own@, tables, b.alias, b.key));
                            assert(ambiguous(own@, tables, b.alias));
                        }
                        return Err(Error::AmbiguousAlias(b.alias));
                    }
                    assert(out@[at as int] == b);
                },
                None => {
                    let ghost before = out@;
                    out.push(b);
                    assert forall|j: int| 0 <= j < i implies out@.contains(#[trigger] own@[j]) by {
                        let k = before.index_of(own@[j]);
                        assert(out@[k] == own@[j]);
                    }
                    assert(out@[out@.len() - 1] == own@[i as int]);
                    assert forall|k: int| 0 <= k < out@.len() implies own@.contains(
                        #[trigger] out@[k],
                    ) by {
                        if k < before.len() {
                            assert(out@[k] == before[k]);
                        } else {
                            assert(out@[k] == own@[i as int]);
                        }
                    }
                },
            }
            i = i + 1;
        }
        let mut p: usize = 0;
        while p < parents.len()
            invariant
                0 <= p <= parents@.len(),
                tables == tables_of(parents@),
                forall|q: int| 0 <= q < parents@.len() ==> (#[trigger] parents@[q]).wf(),
                unique_aliases(out@),
                forall|j: int| 0 <= j < own@.len() ==> out@.contains(#[trigger] own@[j]),
                forall|k: int|
                    0 <= k < out@.len() ==> inherited_or_own(own@, tables, #[trigger] out@[k]),
                forall|q: int, alias: Alias, key: Key|
                    0 <= q < p && !declares(own@, alias) && #[trigger] tables[q].contains_pair(
                        alias,
                        key,
                    ) ==> out@.contains(Binding { alias, key }),
            decreases parents@.len() - p,
        {
            let parent = parents[p];
            let ghost listed = parent.bindings@;
            proof {
                lemma_table_of(listed);
                assert(tables[p as int] == parent@);
            }
            let mut j: usize = 0;
            while j < parent.bindings.len()
                invariant
                    0 <= j <= listed.len(),
                    0 <= p < parents@.len(),
                    listed == parent.bindings@,
                    parent == parents@[p as int],
                    tables == tables_of(parents@),
                    tables[p as int] == table_of(listed),
                    unique_aliases(listed),
                    forall|alias: Alias, key: Key| #[trigger]
                        table_of(listed).contains_pair(alias, key) <==> listed.contains(
                            Binding { alias, key },
                        ),
                    unique_aliases(out@),
                    forall|j: int| 0 <= j < own@.len() ==> out@.contains(#[trigger] own@[j]),
                    forall|k: int|
                        0 <= k < out@.len() ==> inherited_or_own(own@, tables, #[trigger] out@[k]),
                    forall|q: int, alias: Alias, key: Key|
                        0 <= q < p && !declares(own@, alias) && #[trigger] tables[q].contains_pair(
                            alias,
                            key,
                        ) ==> out@.contains(Binding { alias, key }),
                    forall|m: int|
                        0 <= m < j && !declares(own@, (#[trigger] listed[m]).alias) ==> out@.contains(
                            listed[m],
                        ),
                decreases listed.len() - j,
            {
                let b = parent.bindings[j];
                let ghost before = out@;
                proof {
                    assert(listed.contains(b));
                    assert(table_of(listed).contains_pair(b.alias, b.key));
                    assert(tables[p as int].contains_pair(b.alias, b.key));
                }
                if position(own, b.alias).is_none() {
                    match position(&out, b.alias) {
                        Some(at) => {
                            if out[at].key != b.key {
                                proof {
                                    let earlier = out@[at as int];
                                    assert(inherited_or_own(own@, tables, earlier));
                                    assert(offers(own@, tables, b.alias, earlier.key));
                                    assert(offers(own@, tables, b.alias, b.key));
                                    assert(ambiguous(own@, tables, b.alias));
                                }
                                return Err(Error::AmbiguousAlias(b.alias));
                            }
                            assert(out@[at as int] == b);
                        },
                        None => {
                            out.push(b);
                            assert(out@[out@.len() - 1] == b);
                            assert forall|k: int| 0 <= k < out@.len() implies inherited_or_own(
                                own@,
                                tables,
                                #[trigger] out@[k],
                            ) by {
                                if k < before.len() {
                                    assert(out@[k] == before[k]);
                                }
                            }
                            assert forall|x: Binding| before.contains(x) implies out@.contains(x) by {
                                let k = before.index_of(x);
                                assert(out@[k] == x);
                            }
                            assert forall|j: int| 0 <= j < own@.len() implies out@.contains(
                                #[trigger] own@[j],
                            ) by {
                                assert(before.contains(own@[j]));
                            }
                            assert forall|q: int, alias: Alias, key: Key|
                                0 <= q < p && !declares(own@, alias) && #[trigger] tables[q].contains_pair(alias, key) implies out@.contains(
                                Binding { alias, key },
                            ) by {
                                assert(before.contains(Binding { alias, key }));
                            }
                            assert forall|m: int|
                                0 <= m < j && !declares(
                                    own@,
                                    (#[trigger] listed[m]).alias,
                                ) implies out@.contains(listed[m]) by {
                                assert(before.contains(listed[m]));
                            }
                        },
                    }
                }
                j = j + 1;
            }
            assert forall|q: int, alias: Alias, key: Key|
                0 <= q < p + 1 && !declares(own@, alias) && #[trigger] tables[q].contains_pair(
                    alias,
                    key,
                ) implies out@.contains(Binding { alias, key }) by {
                if q == p {
                    let m = listed.index_of(Binding { alias, key });
                    assert(listed[m].alias == alias);
                }
            }
            p = p + 1;
        }
        let table = AliasTable { bindings: out };
        proof {
            lemma_composed(own@, tables, table.bindings@);
        }
        Ok(table)
    }

    /// The number of aliases that the table binds.
    pub fn len(&self) -> (n: usize)
        requires
            self.wf(),
        ensures
            n == self@.dom().len(),
            self@.dom().finite(),
    {
        proof {
            lemma_size(self.bindings@);
        }
        self.bindings.len()
    }

    /// The key that `alias` stands for, or that the table does not bind it.
    pub fn resolve(&self, alias: Alias) -> (key: Result<Key, Error>)
        requires
            self.wf(),
        ensures
            match key {
                Ok(k) => self@.contains_pair(alias, k),
                Err(e) => !self@.contains_key(alias) && e == Error::UnboundAlias(alias),
            },
    {
        proof {
            lemma_table_of(self.bindings@);
        }
        match position(&self.bindings, alias) {
            Some(at) => {
                let found = self.bindings[at];
                assert(self.bindings@.contains(Binding { alias, key: found.key }));
                Ok(found.key)
            },
            None => Err(Error::UnboundAlias(alias)),
        }
    }
}

/// Whether `binding` is one that the context declares itself, or one of an
/// alias that it does not declare and that a parent holds.
pub open spec fn inherited_or_own(
    own: Seq<Binding>,
    parents: Seq<Map<Alias, Key>>,
    binding: Binding,
) -> bool {
    offers(own, parents, binding.alias, binding.key)
}

/// A list that holds every offer once, and nothing else, spells out the
/// composition, and no alias is ambiguous.
proof fn lemma_composed(own: Seq<Binding>, parents: Seq<Map<Alias, Key>>, listed: Seq<Binding>)
    requires
        unique_aliases(listed),
        forall|j: int| 0 <= j < own.len() ==> listed.contains(#[trigger] own[j]),
        forall|k: int| 0 <= k < listed.len() ==> inherited_or_own(own, parents, #[trigger] listed[k]),
        forall|q: int, alias: Alias, key: Key|
            0 <= q < parents.len() && !declares(own, alias) && #[trigger] parents[q].contains_pair(alias, key) ==> listed.contains(Binding { alias, key }),
    ensures
        table_of(listed) == composition(own, parents),
        forall|alias: Alias| !ambiguous(own, parents, alias),
{
    lemma_table_of(listed);
    assert forall|alias: Alias, key: Key| offers(own, parents, alias, key) <==> listed.contains(
        Binding { alias, key },
    ) by {
        if offers(own, parents, alias, key) {
            if declares(own, alias) {
                let j = own.index_of(Binding { alias, key });
                assert(listed.contains(own[j]));
            } else {
                let q = choose|q: int|
                    0 <= q < parents.len() && (#[trigger] parents[q]).contains_pair(alias, key);
                assert(listed.contains(Binding { alias, key }));
            }
        }
        if listed.contains(Binding { alias, key }) {
            let k = listed.index_of(Binding { alias, key });
            assert(inherited_or_own(own, parents, listed[k]));
        }
    }
    assert forall|alias: Alias| !ambiguous(own, parents, alias) by {
        if ambiguous(own, parents, alias) {
            let (k1, k2) = choose|k1: Key, k2: Key|
                #![trigger offers(own, parents, alias, k1), offers(own, parents, alias, k2)]
                k1 != k2 && offers(own, parents, alias, k1) && offers(own, parents, alias, k2);
            assert(table_of(listed).contains_pair(alias, k1));
            assert(table_of(listed).contains_pair(alias, k2));
        }
    }
    assert forall|alias: Alias| #[trigger]
        table_of(listed).contains_key(alias) <==> composition(own, parents).contains_key(alias) by {
        if table_of(listed).contains_key(alias) {
            let key = table_of(listed)[alias];
            assert(table_of(listed).contains_pair(alias, key));
            assert(offers(own, parents, alias, key));
        }
        if composition(own, parents).contains_key(alias) {
            let key = choose|key: Key| offers(own, parents, alias, key);
            assert(table_of(listed).contains_pair(alias, key));
        }
    }
    assert forall|alias: Alias| #[trigger] table_of(listed).contains_key(alias) implies table_of(
        listed,
    )[alias] == composition(own, parents)[alias] by {
        let key = table_of(listed)[alias];
        assert(table_of(listed).contains_pair(alias, key));
        assert(offers(own, parents, alias, key));
        let chosen = choose|key: Key| offers(own, parents, alias, key);
        assert(table_of(listed).contains_pair(alias, chosen));
    }
    assert(table_of(listed) =~= composition(own, parents));
}

/// A list without repeated aliases spells out as many bindings as it is long.
proof fn lemma_size(bindings: Seq<Binding>)
    requires
        unique_aliases(bindings),
    ensures
        table_of(bindings).dom().finite(),
        table_of(bindings).dom().len() == bindings.len(),
    decreases bindings.len(),
{
    if bindings.len() == 0 {
        assert(table_of(bindings).dom() =~= Set::<Alias>::empty());
    } else {
        let rest = bindings.drop_last();
        let last = bindings.last();
        lemma_size(rest);
        assert forall|a: Alias| table_of(bindings).dom().contains(a) <==> table_of(rest).dom().insert(
            last.alias,
        ).contains(a) by {
            if declares(bindings, a) {
                let i = choose|i: int| 0 <= i < bindings.len() && (#[trigger] bindings[i]).alias == a;
                if i < rest.len() {
                    assert(rest[i].alias == a);
                }
            }
            if declares(rest, a) {
                let i = choose|i: int| 0 <= i < rest.len() && (#[trigger] rest[i]).alias == a;
                assert(bindings[i].alias == a);
            }
            if a == last.alias {
                assert(bindings[bindings.len() - 1].alias == a);
            }
        }
        assert(table_of(bindings).dom() =~= table_of(rest).dom().insert(last.alias));
        if declares(rest, last.alias) {
            let i = choose|i: int| 0 <= i < rest.len() && (#[trigger] rest[i]).alias == last.alias;
            assert(bindings[i].alias != bindings[bindings.len() - 1].alias);
        }
    }
}

} // verus!
