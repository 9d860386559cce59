//! The plugin registry: resolves provider names and aliases to registered
//! providers, mediates enabling and disabling, and runs bulk
//! initialization.

use vstd::prelude::*;
use crate::runtime::{Bindings, Plugin, RuntimeError, RuntimeResult};
use crate::value::Value;
use crate::PluginError;

verus! {

/// Descriptive metadata a provider registers with.
#[derive(Debug)]
pub struct PluginMetadata {
    pub name: String,
    pub version: String,
    pub description: String,
    pub author: String,
    pub methods: Vec<String>,
}

/// Capability flags a provider registers with.
#[derive(Debug, Clone, Copy, PartialEq, Eq, Structural)]
pub struct PluginCapabilities {
    pub supports_async: bool,
    pub supports_streaming: bool,
    pub requires_network: bool,
    pub requires_auth: bool,
}

/// One registry entry: metadata, capabilities, the provider, and whether
/// dispatch to it is currently enabled.
pub struct PluginEntry<P: Plugin> {
    pub metadata: PluginMetadata,
    pub capabilities: PluginCapabilities,
    pub plugin: P,
    pub enabled: bool,
}

/// A summary of one registration, as listings report it.
#[derive(Debug)]
pub struct PluginRegistrationInfo {
    pub name: String,
    pub version: String,
    pub description: String,
    pub author: String,
    pub methods: Vec<String>,
    pub aliases: Vec<String>,
}

/// The ghost view of a provider's metadata.
pub struct MetaModel {
    pub name: Seq<char>,
    pub version: Seq<char>,
    pub description: Seq<char>,
    pub author: Seq<char>,
    pub methods: Seq<Seq<char>>,
}

impl PluginMetadata {
    /// The model of this metadata.
    pub open spec fn model(self) -> MetaModel {
        MetaModel {
            name: self.name@,
            version: self.version@,
            description: self.description@,
            author: self.author@,
            methods: names_model(self.methods@),
        }
    }
}

/// The views of a list of names, in order.
pub open spec fn names_model(s: Seq<String>) -> Seq<Seq<char>> {
    Seq::new(
        s.len(),
        |i: int|
            if 0 <= i < s.len() {
                s[i]@
            } else {
                Seq::empty()
            },
    )
}

/// The ghost view of one registry entry: its metadata, its capabilities
/// and whether it is enabled. Provider internals stay the provider's own.
pub struct EntryModel {
    pub meta: MetaModel,
    pub capabilities: PluginCapabilities,
    pub enabled: bool,
}

/// Whether an association list holds a key.
pub open spec fn has_key<V>(s: Seq<(Seq<char>, V)>, key: Seq<char>) -> bool {
    exists|i: int| 0 <= i < s.len() && (#[trigger] s[i]).0 == key
}

/// The keys of an association list are pairwise distinct.
pub open spec fn keys_unique<V>(s: Seq<(Seq<char>, V)>) -> bool {
    forall|i: int, j: int| 0 <= i < j < s.len() ==> (#[trigger] s[i]).0 != (#[trigger] s[j]).0
}

/// The value at a key of an association list with distinct keys.
pub open spec fn key_value<V>(s: Seq<(Seq<char>, V)>, key: Seq<char>) -> V
    recommends
        has_key(s, key),
{
    s[choose|i: int| 0 <= i < s.len() && (#[trigger] s[i]).0 == key].1
}

/// The first alias entry for a name, if any.
pub open spec fn alias_target(am: Seq<(Seq<char>, Seq<char>)>, name: Seq<char>) -> Option<
    Seq<char>,
>
    decreases am.len(),
{
    if am.len() == 0 {
        None
    } else if am[0].0 == name {
        Some(am[0].1)
    } else {
        alias_target(am.drop_first(), name)
    }
}

/// The provider name a given name resolves to under a provider table and
/// an alias table: itself when registered directly, the target of its
/// alias when that target is registered, nothing otherwise.
pub open spec fn resolved_in(
    pm: Seq<(Seq<char>, EntryModel)>,
    am: Seq<(Seq<char>, Seq<char>)>,
    name: Seq<char>,
) -> Option<Seq<char>> {
    if has_key(pm, name) {
        Some(name)
    } else {
        match alias_target(am, name) {
            Some(t) => if has_key(pm, t) {
                Some(t)
            } else {
                None
            },
            None => None,
        }
    }
}

/// Registering a provider and an alias makes lookups by the name and by
/// the alias resolve to the same registered entry.
pub proof fn lemma_alias_integrity(
    pm0: Seq<(Seq<char>, EntryModel)>,
    am0: Seq<(Seq<char>, Seq<char>)>,
    name: Seq<char>,
    entry: EntryModel,
    alias: Seq<char>,
)
    requires
        keys_unique(pm0),
        !has_key(pm0, name),
        !has_key(pm0, alias),
        !has_key(am0, alias),
        alias != name,
    ensures
        ({
            let pm1 = pm0.push((name, entry));
            let am1 = am0.push((alias, name));
            &&& resolved_in(pm1, am1, name) == Some(name)
            &&& resolved_in(pm1, am1, alias) == Some(name)
            &&& keys_unique(pm1)
            &&& has_key(pm1, name)
            &&& key_value(pm1, name) == entry
        }),
{
    let pm1 = pm0.push((name, entry));
    let am1 = am0.push((alias, name));
    assert(pm1[pm1.len() - 1].0 == name);
    assert(has_key(pm1, name));
    assert(!has_key(pm1, alias)) by {
        assert(forall|i: int| 0 <= i < pm0.len() ==> (#[trigger] pm1[i]).0 == pm0[i].0);
    }
    lemma_alias_target_push(am0, alias, name);
    let i = choose|i: int| 0 <= i < pm1.len() && (#[trigger] pm1[i]).0 == name;
    if i < pm0.len() {
        assert(pm0[i].0 == name);
        assert(false);
    }
    assert(key_value(pm1, name) == entry);
}

/// An alias absent from a table points at the pushed target afterward.
pub proof fn lemma_alias_target_push(
    am0: Seq<(Seq<char>, Seq<char>)>,
    alias: Seq<char>,
    target: Seq<char>,
)
    requires
        !has_key(am0, alias),
    ensures
        alias_target(am0.push((alias, target)), alias) == Some(target),
    decreases am0.len(),
{
    let am1 = am0.push((alias, target));
    if am0.len() == 0 {
        assert(am1[0].0 == alias);
    } else {
        assert(am0[0].0 != alias);
        assert(!has_key(am0.drop_first(), alias)) by {
            assert(forall|i: int| 0 <= i < am0.len() - 1 ==> (#[trigger] am0.drop_first()[i]).0
                == am0[i + 1].0);
        }
        lemma_alias_target_push(am0.drop_first(), alias, target);
        assert(am1.drop_first() =~= am0.drop_first().push((alias, target)));
    }
}

/// In a table with distinct keys, the value at an entry's key is that
/// entry's value.
pub proof fn lemma_key_value_at<V>(s: Seq<(Seq<char>, V)>, i: int)
    requires
        keys_unique(s),
        0 <= i < s.len(),
    ensures
        has_key(s, s[i].0),
        key_value(s, s[i].0) == s[i].1,
{
    assert(has_key(s, s[i].0));
    let j = choose|j: int| 0 <= j < s.len() && (#[trigger] s[j]).0 == s[i].0;
    if j != i {
        if j < i {
            assert(s[j].0 != s[i].0);
        } else {
            assert(s[i].0 != s[j].0);
        }
        assert(false);
    }
}

/// Pushing a fresh key keeps the keys distinct.
pub proof fn lemma_push_unique<V>(s: Seq<(Seq<char>, V)>, name: Seq<char>, v: V)
    requires
        keys_unique(s),
        !has_key(s, name),
    ensures
        keys_unique(s.push((name, v))),
{
    let s1 = s.push((name, v));
    assert forall|i: int, j: int| 0 <= i < j < s1.len() implies (#[trigger] s1[i]).0 != (
    #[trigger] s1[j]).0 by {
        if j < s.len() {
            assert(s1[i] == s[i] && s1[j] == s[j]);
        } else {
            assert(s1[i] == s[i]);
            assert(s1[j].0 == name);
        }
    }
}

/// Removal keeps keys distinct, and introduces no key.
pub proof fn lemma_remove_key_unique<V>(s: Seq<(Seq<char>, V)>, key: Seq<char>)
    requires
        keys_unique(s),
    ensures
        keys_unique(remove_key(s, key)),
        forall|x: Seq<char>| has_key(remove_key(s, key), x) ==> has_key(s, x),
    decreases s.len(),
{
    if s.len() > 0 {
        let rest = s.drop_first();
        assert(keys_unique(rest)) by {
            assert(forall|i: int| 0 <= i < rest.len() ==> #[trigger] rest[i] == s[i + 1]);
        }
        lemma_remove_key_unique(rest, key);
        let rk = remove_key(rest, key);
        if s[0].0 == key {
            assert(remove_key(s, key) == rk);
            assert forall|x: Seq<char>| has_key(remove_key(s, key), x) implies has_key(s, x) by {
                if has_key(rk, x) {
                    assert(has_key(rest, x));
                    let i = choose|i: int| 0 <= i < rest.len() && (#[trigger] rest[i]).0 == x;
                    assert(s[i + 1].0 == x);
                }
            }
        } else {
            let r = remove_key(s, key);
            assert(r == seq![s[0]] + rk);
            assert(!has_key(rk, s[0].0)) by {
                if has_key(rk, s[0].0) {
                    assert(has_key(rest, s[0].0));
                    let i = choose|i: int| 0 <= i < rest.len() && (#[trigger] rest[i]).0 == s[0].0;
                    assert(s[i + 1].0 == s[0].0);
                    assert(false);
                }
            }
            assert forall|i: int, j: int| 0 <= i < j < r.len() implies (#[trigger] r[i]).0 != (
            #[trigger] r[j]).0 by {
                assert(r[j] == rk[j - 1]);
                if i > 0 {
                    assert(r[i] == rk[i - 1]);
                } else {
                    assert(r[0] == s[0]);
                    assert(rk[j - 1].0 != s[0].0) by {
                        assert(has_key(rk, rk[j - 1].0));
                    }
                }
            }
            assert forall|x: Seq<char>| has_key(r, x) implies has_key(s, x) by {
                let i = choose|i: int| 0 <= i < r.len() && (#[trigger] r[i]).0 == x;
                if i == 0 {
                    assert(s[0].0 == x);
                } else {
                    assert(rk[i - 1].0 == x);
                    assert(has_key(rk, x));
                    assert(has_key(rest, x));
                    let m = choose|m: int| 0 <= m < rest.len() && (#[trigger] rest[m]).0 == x;
                    assert(s[m + 1].0 == x);
                }
            }
        }
    }
}

/// A key absent before removal stays absent after it.
pub proof fn lemma_remove_key_absent<V>(s: Seq<(Seq<char>, V)>, key: Seq<char>, other: Seq<char>)
    requires
        !has_key(s, other),
    ensures
        !has_key(remove_key(s, key), other),
    decreases s.len(),
{
    if s.len() > 0 {
        assert(forall|i: int| 0 <= i < s.len() - 1 ==> (#[trigger] s.drop_first()[i]).0 == s[i
            + 1].0);
        lemma_remove_key_absent(s.drop_first(), key, other);
        if s[0].0 != key {
            let r = remove_key(s, key);
            assert(r == seq![s[0]] + remove_key(s.drop_first(), key));
            assert forall|i: int| 0 <= i < r.len() implies (#[trigger] r[i]).0 != other by {
                if i > 0 {
                    assert(r[i] == remove_key(s.drop_first(), key)[i - 1]);
                }
            }
        }
    }
}

/// The removed key is gone after removal.
pub proof fn lemma_remove_key_gone<V>(s: Seq<(Seq<char>, V)>, key: Seq<char>)
    ensures
        !has_key(remove_key(s, key), key),
    decreases s.len(),
{
    if s.len() > 0 {
        lemma_remove_key_gone(s.drop_first(), key);
        if s[0].0 != key {
            let r = remove_key(s, key);
            assert(r == seq![s[0]] + remove_key(s.drop_first(), key));
            assert forall|i: int| 0 <= i < r.len() implies (#[trigger] r[i]).0 != key by {
                if i > 0 {
                    assert(r[i] == remove_key(s.drop_first(), key)[i - 1]);
                }
            }
        }
    }
}

/// An alias key absent before a purge stays absent after it.
pub proof fn lemma_purge_absent(am: Seq<(Seq<char>, Seq<char>)>, target: Seq<char>, k: Seq<char>)
    requires
        !has_key(am, k),
    ensures
        alias_target(purge_target(am, target), k) is None,
    decreases am.len(),
{
    if am.len() > 0 {
        assert(forall|i: int| 0 <= i < am.len() - 1 ==> (#[trigger] am.drop_first()[i]).0 == am[i
            + 1].0);
        lemma_purge_absent(am.drop_first(), target, k);
        if am[0].1 != target {
            let p = purge_target(am, target);
            assert(p == seq![am[0]] + purge_target(am.drop_first(), target));
            assert(p[0] == am[0]);
            assert(p.drop_first() =~= purge_target(am.drop_first(), target));
        }
    }
}

/// With distinct alias keys, purging an alias's target leaves the alias
/// pointing nowhere.
pub proof fn lemma_purge_own_alias(am: Seq<(Seq<char>, Seq<char>)>, alias: Seq<char>)
    requires
        keys_unique(am),
        alias_target(am, alias) is Some,
    ensures
        alias_target(purge_target(am, alias_target(am, alias)->0), alias) is None,
    decreases am.len(),
{
    let target = alias_target(am, alias)->0;
    if am.len() > 0 {
        if am[0].0 == alias {
            assert(am[0].1 == target);
            let p = purge_target(am, target);
            assert(!has_key(am.drop_first(), alias)) by {
                assert forall|i: int| 0 <= i < am.drop_first().len() implies (
                #[trigger] am.drop_first()[i]).0 != alias by {
                    assert(am.drop_first()[i] == am[i + 1]);
                }
            }
            lemma_purge_absent(am.drop_first(), target, alias);
            assert(p == purge_target(am.drop_first(), target));
        } else {
            assert(keys_unique(am.drop_first())) by {
                assert(forall|i: int| 0 <= i < am.len() - 1 ==> #[trigger] am.drop_first()[i]
                    == am[i + 1]);
            }
            assert(alias_target(am.drop_first(), alias) == alias_target(am, alias));
            lemma_purge_own_alias(am.drop_first(), alias);
            if am[0].1 != target {
                let p = purge_target(am, target);
                assert(p == seq![am[0]] + purge_target(am.drop_first(), target));
                assert(p[0] == am[0]);
                assert(p.drop_first() =~= purge_target(am.drop_first(), target));
            }
        }
    }
}

/// Unregistering a provider removes both its name and its alias: after the
/// entry is removed and its aliases purged, neither the name nor an alias
/// that pointed at it resolves any longer.
pub proof fn lemma_unregister_removes(
    pm1: Seq<(Seq<char>, EntryModel)>,
    am1: Seq<(Seq<char>, Seq<char>)>,
    name: Seq<char>,
    alias: Seq<char>,
)
    requires
        keys_unique(am1),
        alias_target(am1, alias) == Some(name),
        !has_key(pm1, alias),
        !has_key(am1, name),
    ensures
        ({
            let pm2 = remove_key(pm1, name);
            let am2 = purge_target(am1, name);
            &&& resolved_in(pm2, am2, name) is None
            &&& resolved_in(pm2, am2, alias) is None
        }),
{
    let pm2 = remove_key(pm1, name);
    let am2 = purge_target(am1, name);
    lemma_remove_key_gone(pm1, name);
    lemma_purge_absent(am1, name, name);
    lemma_purge_own_alias(am1, alias);
    lemma_remove_key_absent(pm1, name, alias);
}

/// An association list without the entries holding a key.
pub open spec fn remove_key<V>(s: Seq<(Seq<char>, V)>, key: Seq<char>) -> Seq<(Seq<char>, V)>
    decreases s.len(),
{
    if s.len() == 0 {
        Seq::empty()
    } else if s[0].0 == key {
        remove_key(s.drop_first(), key)
    } else {
        seq![s[0]] + remove_key(s.drop_first(), key)
    }
}

/// An alias table without the entries pointing at a target.
pub open spec fn purge_target(
    am: Seq<(Seq<char>, Seq<char>)>,
    target: Seq<char>,
) -> Seq<(Seq<char>, Seq<char>)>
    decreases am.len(),
{
    if am.len() == 0 {
        Seq::empty()
    } else if am[0].1 == target {
        purge_target(am.drop_first(), target)
    } else {
        seq![am[0]] + purge_target(am.drop_first(), target)
    }
}

/// The registry: providers keyed by name, plus an alias table mapping
/// alternate names onto provider names.
pub struct PluginRegistry<P: Plugin> {
    plugins: Vec<(String, PluginEntry<P>)>,
    aliases: Vec<(String, String)>,
}

impl<P: Plugin> PluginRegistry<P> {
    /// The ghost view of the provider table, in registration order.
    pub closed spec fn plugins_model(self) -> Seq<(Seq<char>, EntryModel)> {
        pentries_model(self.plugins@)
    }

    /// The ghost view of the alias table, in registration order.
    pub closed spec fn aliases_model(self) -> Seq<(Seq<char>, Seq<char>)> {
        aentries_model(self.aliases@)
    }

    /// What a name resolves to in this registry.
    pub open spec fn resolved(self, name: Seq<char>) -> Option<Seq<char>> {
        resolved_in(self.plugins_model(), self.aliases_model(), name)
    }

    /// A well-formed registry: provider names are pairwise distinct.
    /// Construction and every operation preserve it.
    pub open spec fn wf(self) -> bool {
        keys_unique(self.plugins_model())
    }

    /// The provider name the enable, disable and unregister operations
    /// work on: an alias's target where the name has an alias entry, the
    /// name itself otherwise.
    pub open spec fn resolve_spec(self, name: Seq<char>) -> Seq<char> {
        match alias_target(self.aliases_model(), name) {
            Some(t) => t,
            None => name,
        }
    }

    /// An empty registry.
    pub fn new() -> (r: Self)
        ensures
            r.plugins_model() == Seq::<(Seq<char>, EntryModel)>::empty(),
            r.aliases_model() == Seq::<(Seq<char>, Seq<char>)>::empty(),
            r.wf(),
    {
        let r = PluginRegistry { plugins: Vec::new(), aliases: Vec::new() };
        proof {
            assert(r.plugins_model() =~= Seq::<(Seq<char>, EntryModel)>::empty());
            assert(r.aliases_model() =~= Seq::<(Seq<char>, Seq<char>)>::empty());
        }
        r
    }

    /// How many providers are registered.
    pub fn plugin_count(&self) -> (r: usize)
        ensures
            r as int == self.plugins_model().len(),
    {
        self.plugins.len()
    }

    /// The index of the provider registered under a name, if any.
    fn find_plugin(&self, name: &String) -> (r: Option<usize>)
        ensures
            match r {
                Some(i) => (i as int) < self.plugins_model().len()
                    && self.plugins_model()[i as int].0 == name@ && has_key(
                    self.plugins_model(),
                    name@,
                ),
                None => !has_key(self.plugins_model(), name@),
            },
    {
        let mut i: usize = 0;
        while i < self.plugins.len()
            invariant
                i <= self.plugins@.len(),
                forall|j: int| 0 <= j < i as int ==> (#[trigger] self.plugins_model()[j]).0
                    != name@,
            decreases self.plugins@.len() - i,
        {
            if self.plugins[i].0 == *name {
                return Some(i);
            }
            i = i + 1;
        }
        None
    }

    /// The target of the first alias entry for a name, if any.
    fn find_alias_target(&self, name: &String) -> (r: Option<&String>)
        ensures
            match r {
                Some(t) => alias_target(self.aliases_model(), name@) == Some(t@),
                None => alias_target(self.aliases_model(), name@) is None,
            },
    {
        let ghost am = self.aliases_model();
        let mut i: usize = 0;
        proof {
            assert(am.skip(0) =~= am);
        }
        while i < self.aliases.len()
            invariant
                i <= self.aliases@.len(),
                am == self.aliases_model(),
                am.len() == self.aliases@.len(),
                alias_target(am, name@) == alias_target(am.skip(i as int), name@),
            decreases self.aliases@.len() - i,
        {
            proof {
                assert(am.skip(i as int)[0] == am[i as int]);
                assert(am.skip(i as int).drop_first() =~= am.skip(i as int + 1));
            }
            if self.aliases[i].0 == *name {
                return Some(&self.aliases[i].1);
            }
            i = i + 1;
        }
        proof {
            assert(am.skip(i as int).len() == 0);
        }
        None
    }

    /// The provider name a given name stands for: the target of its alias
    /// where one exists, the name itself otherwise.
    fn resolve_name(&self, name: &String) -> (r: String)
        ensures
            match alias_target(self.aliases_model(), name@) {
                Some(t) => r@ == t,
                None => r@ == name@,
            },
    {
        match self.find_alias_target(name) {
            Some(t) => t.clone(),
            None => name.clone(),
        }
    }

    /// Register a provider under the name in its metadata; a name already
    /// registered is refused, and nothing changes.
    pub fn register_plugin(
        &mut self,
        plugin: P,
        metadata: PluginMetadata,
        capabilities: PluginCapabilities,
    ) -> (r: Result<(), PluginError>)
        ensures
            final(self).aliases_model() == old(self).aliases_model(),
            old(self).wf() ==> final(self).wf(),
            match r {
                Ok(_) => !has_key(old(self).plugins_model(), metadata.name@)
                    && final(self).plugins_model() == old(self).plugins_model().push(
                    (
                        metadata.name@,
                        (EntryModel { meta: metadata.model(), capabilities: capabilities, enabled: true }),
                    ),
                ),
                Err(e) => has_key(old(self).plugins_model(), metadata.name@)
                    && final(self).plugins_model() == old(self).plugins_model()
                    && e is InitializationFailed,
            },
    {
        proof {
            reveal_strlit("Plugin is already registered");
        }
        let existing = self.find_plugin(&metadata.name);
        if matches!(existing, Some(_)) {
            return Err(
                PluginError::InitializationFailed(
                    String::from_str("Plugin is already registered"),
                ),
            );
        }
        let ghost before = self.plugins_model();
        let ghost abefore = self.aliases_model();
        let name = metadata.name.clone();
        let entry = PluginEntry { metadata, capabilities, plugin, enabled: true };
        self.plugins.push((name, entry));
        proof {
            assert(self.plugins_model() =~= before.push(
                (
                    self.plugins@.last().0@,
                    EntryModel {
                        meta: self.plugins@.last().1.metadata.model(),
                        capabilities: self.plugins@.last().1.capabilities,
                        enabled: self.plugins@.last().1.enabled,
                    },
                ),
            ));
            assert(self.aliases_model() =~= abefore);
            if keys_unique(before) {
                lemma_push_unique(before, self.plugins@.last().0@, self.plugins_model().last().1);
                assert(self.plugins_model().drop_last() =~= before);
            }
        }
        Ok(())
    }

    /// Register a provider together with aliases: refused, with nothing
    /// changed, when the name is taken or any alias collides with an
    /// existing name or alias; otherwise the provider is registered and
    /// every alias points at it.
    pub fn register_plugin_with_aliases(
        &mut self,
        plugin: P,
        metadata: PluginMetadata,
        capabilities: PluginCapabilities,
        aliases: Vec<String>,
    ) -> (r: Result<(), PluginError>)
        ensures
            match r {
                Ok(_) => {
                    &&& !has_key(old(self).plugins_model(), metadata.name@)
                    &&& final(self).plugins_model() == old(self).plugins_model().push(
                        (
                        metadata.name@,
                        (EntryModel { meta: metadata.model(), capabilities: capabilities, enabled: true }),
                    ),
                    )
                    &&& final(self).aliases_model() == old(self).aliases_model() + Seq::new(
                        aliases@.len(),
                        |i: int|
                            if 0 <= i < aliases@.len() {
                                ((aliases@[i])@, metadata.name@)
                            } else {
                                (Seq::empty(), Seq::empty())
                            },
                    )
                    &&& forall|i: int| 0 <= i < aliases@.len() ==> !has_key(
                        old(self).plugins_model(),
                        (#[trigger] aliases@[i])@,
                    ) && !has_key(old(self).aliases_model(), (aliases@[i])@)
                },
                Err(e) => {
                    &&& final(self).plugins_model() == old(self).plugins_model()
                    &&& final(self).aliases_model() == old(self).aliases_model()
                    &&& e is InitializationFailed
                    &&& (has_key(old(self).plugins_model(), metadata.name@) || exists|i: int|
                        0 <= i < aliases@.len() && (has_key(
                            old(self).plugins_model(),
                            (#[trigger] aliases@[i])@,
                        ) || has_key(old(self).aliases_model(), (aliases@[i])@)))
                },
            },
            old(self).wf() ==> final(self).wf(),
    {
        proof {
            reveal_strlit("Alias is already in use");
        }
        let mut k: usize = 0;
        while k < aliases.len()
            invariant
                k <= aliases@.len(),
                self.plugins_model() == old(self).plugins_model(),
                self.aliases_model() == old(self).aliases_model(),
                forall|i: int| 0 <= i < k as int ==> !has_key(
                    self.plugins_model(),
                    (#[trigger] aliases@[i])@,
                ) && !has_key(self.aliases_model(), (aliases@[i])@),
            decreases aliases@.len() - k,
        {
            let in_plugins = self.find_plugin(&aliases[k]);
            let has_alias = self.find_alias_target(&aliases[k]);
            let alias_taken = matches!(has_alias, Some(_));
            if matches!(in_plugins, Some(_)) || alias_taken {
                proof {
                    if alias_target(self.aliases_model(), (aliases@[k as int])@) is Some {
                        lemma_alias_target_has_key(self.aliases_model(), (aliases@[k as int])@);
                    }
                }
                return Err(
                    PluginError::InitializationFailed(String::from_str("Alias is already in use")),
                );
            }
            proof {
                lemma_no_alias_target_no_key(self.aliases_model(), (aliases@[k as int])@);
            }
            k = k + 1;
        }
        let name = metadata.name.clone();
        match self.register_plugin(plugin, metadata, capabilities) {
            Ok(_) => {},
            Err(e) => {
                return Err(e);
            },
        }
        let ghost pbase = self.plugins_model();
        let ghost abase = self.aliases_model();
        let ghost amap = Seq::new(
            aliases@.len(),
            |i: int|
                if 0 <= i < aliases@.len() {
                    ((aliases@[i])@, name@)
                } else {
                    (Seq::empty(), Seq::empty())
                },
        );
        let mut k2: usize = 0;
        proof {
            assert(abase + amap.take(0) =~= abase);
        }
        while k2 < aliases.len()
            invariant
                k2 <= aliases@.len(),
                self.plugins_model() == pbase,
                amap.len() == aliases@.len(),
                forall|i: int| 0 <= i < aliases@.len() ==> #[trigger] amap[i] == (
                    (aliases@[i])@,
                    name@,
                ),
                self.aliases_model() == abase + amap.take(k2 as int),
            decreases aliases@.len() - k2,
        {
            let alias = aliases[k2].clone();
            let target = name.clone();
            let ghost before = self.aliases_model();
            self.aliases.push((alias, target));
            proof {
                assert(self.aliases_model() =~= before.push(
                    (self.aliases@.last().0@, self.aliases@.last().1@),
                ));
                assert(amap.take(k2 as int + 1) =~= amap.take(k2 as int).push(amap[k2 as int]));
                assert(self.aliases_model() =~= abase + amap.take(k2 as int + 1));
            }
            k2 = k2 + 1;
        }
        proof {
            assert(amap.take(aliases@.len() as int) =~= amap);
        }
        Ok(())
    }

    /// A provider entry reached by name or alias, if any: in a well-formed
    /// registry it is exactly the entry registered under the resolved name.
    pub fn get_plugin(&self, name: &String) -> (r: Option<&PluginEntry<P>>)
        ensures
            r is Some <==> self.resolved(name@) is Some,
            r matches Some(e) ==> ({
                let rn = self.resolved(name@)->0;
                exists|i: int|
                    0 <= i < self.plugins_model().len() && #[trigger] self.plugins_model()[i] == (
                    rn,
                    EntryModel {
                        meta: e.metadata.model(),
                        capabilities: e.capabilities,
                        enabled: e.enabled,
                    },
                    )
            }),
            self.wf() ==> (r matches Some(e) ==> key_value(
                self.plugins_model(),
                self.resolved(name@)->0,
            ) == (EntryModel {
                meta: e.metadata.model(),
                capabilities: e.capabilities,
                enabled: e.enabled,
            })),
    {
        let r = match self.find_plugin(name) {
            Some(i) => Some(&self.plugins[i].1),
            None => {
                match self.find_alias_target(name) {
                    Some(t) => {
                        let target = t.clone();
                        match self.find_plugin(&target) {
                            Some(i) => Some(&self.plugins[i].1),
                            None => None,
                        }
                    },
                    None => None,
                }
            },
        };
        proof {
            if self.wf() && r is Some {
                let rn = self.resolved(name@)->0;
                let i = choose|i: int|
                    0 <= i < self.plugins_model().len() && #[trigger] self.plugins_model()[i] == (
                    rn,
                    EntryModel {
                        meta: r->0.metadata.model(),
                        capabilities: r->0.capabilities,
                        enabled: r->0.enabled,
                    },
                    );
                lemma_key_value_at(self.plugins_model(), i);
            }
        }
        r
    }

    /// Whether a name or alias reaches a registered provider.
    pub fn has_plugin(&self, name: &String) -> (r: bool)
        ensures
            r == (self.resolved(name@) is Some),
    {
        let found = self.get_plugin(name);
        matches!(found, Some(_))
    }

    /// The metadata of the provider a name reaches, if any: in a
    /// well-formed registry, exactly the metadata the provider registered
    /// with.
    pub fn get_plugin_metadata(&self, name: &String) -> (r: Option<&PluginMetadata>)
        ensures
            r is Some <==> self.resolved(name@) is Some,
            self.wf() ==> (r matches Some(m) ==> m.model() == key_value(
                self.plugins_model(),
                self.resolved(name@)->0,
            ).meta),
    {
        match self.get_plugin(name) {
            Some(entry) => Some(&entry.metadata),
            None => None,
        }
    }

    /// The capabilities of the provider a name reaches, if any: in a
    /// well-formed registry, exactly the capabilities the provider
    /// registered with.
    pub fn get_plugin_capabilities(&self, name: &String) -> (r: Option<&PluginCapabilities>)
        ensures
            r is Some <==> self.resolved(name@) is Some,
            self.wf() ==> (r matches Some(c) ==> *c == key_value(
                self.plugins_model(),
                self.resolved(name@)->0,
            ).capabilities),
    {
        match self.get_plugin(name) {
            Some(entry) => Some(&entry.capabilities),
            None => None,
        }
    }

    /// Whether the provider a name reaches is enabled; an unknown name
    /// reads as disabled.
    pub fn is_plugin_enabled(&self, name: &String) -> (r: bool)
        ensures
            self.resolved(name@) is None ==> r == false,
            self.wf() ==> (self.resolved(name@) matches Some(rn) ==> r == key_value(
                self.plugins_model(),
                rn,
            ).enabled),
    {
        match self.get_plugin(name) {
            Some(entry) => entry.enabled,
            None => false,
        }
    }

    /// Run a method on the provider a name reaches: an unknown name or a
    /// disabled provider is an error; otherwise the provider's own result
    /// is returned as it came.
    pub fn execute_plugin_method(&self, plugin_name: &String, method: &String, args: &Bindings)
        -> (r: RuntimeResult<Value>)
        ensures
            self.resolved(plugin_name@) is None ==> (r matches Err(e) && e is Plugin),
            (self.wf() && (self.resolved(plugin_name@) matches Some(rn)
                && !key_value(self.plugins_model(), rn).enabled)) ==> (r matches Err(e)
                && e is Plugin),
    {
        proof {
            if keys_unique(self.plugins_model()) && self.resolved(plugin_name@) is Some {
                let rn = self.resolved(plugin_name@)->0;
                let i = choose|i: int|
                    0 <= i < self.plugins_model().len() && (#[trigger] self.plugins_model()[
                    i]).0 == rn;
            }
        }
        proof {
            reveal_strlit("Plugin '");
            reveal_strlit("' not found");
            reveal_strlit("' is disabled");
        }
        let entry = match self.get_plugin(plugin_name) {
            Some(e) => e,
            None => {
                let mut m = String::from_str("Plugin '");
                m.append(plugin_name.as_str());
                m.append("' not found");
                return Err(RuntimeError::Plugin(m));
            },
        };
        if !entry.enabled {
            let mut m = String::from_str("Plugin '");
            m.append(plugin_name.as_str());
            m.append("' is disabled");
            return Err(RuntimeError::Plugin(m));
        }
        entry.plugin.execute(method, args)
    }

    /// Enable the provider a name reaches: refused exactly when no
    /// provider is registered under the resolved name, and then nothing
    /// changes; otherwise only that provider's flag becomes true.
    pub fn enable_plugin(&mut self, name: &String) -> (r: Result<(), PluginError>)
        ensures
            final(self).aliases_model() == old(self).aliases_model(),
            r is Ok <==> has_key(old(self).plugins_model(), old(self).resolve_spec(name@)),
            r is Err ==> final(self).plugins_model() == old(self).plugins_model(),
            r matches Err(e) ==> e is ExecutionFailed,
            old(self).wf() ==> final(self).wf(),
            (old(self).wf() && r is Ok) ==> ({
                let rt = old(self).resolve_spec(name@);
                let pm0 = old(self).plugins_model();
                let pm1 = final(self).plugins_model();
                &&& pm1.len() == pm0.len()
                &&& forall|j: int| 0 <= j < pm0.len() ==> (#[trigger] pm1[j]).0 == pm0[j].0
                    && pm1[j].1.meta == pm0[j].1.meta && pm1[j].1.capabilities
                    == pm0[j].1.capabilities && (pm0[j].0 != rt ==> pm1[j] == pm0[j]) && (pm0[j].0
                    == rt ==> pm1[j].1.enabled == true)
            }),
    {
        self.set_enabled(name, true)
    }

    /// Disable the provider a name reaches: refused exactly when no
    /// provider is registered under the resolved name, and then nothing
    /// changes; otherwise only that provider's flag becomes false, and
    /// dispatch to it errors until it is enabled again.
    pub fn disable_plugin(&mut self, name: &String) -> (r: Result<(), PluginError>)
        ensures
            final(self).aliases_model() == old(self).aliases_model(),
            r is Ok <==> has_key(old(self).plugins_model(), old(self).resolve_spec(name@)),
            r is Err ==> final(self).plugins_model() == old(self).plugins_model(),
            r matches Err(e) ==> e is ExecutionFailed,
            old(self).wf() ==> final(self).wf(),
            (old(self).wf() && r is Ok) ==> ({
                let rt = old(self).resolve_spec(name@);
                let pm0 = old(self).plugins_model();
                let pm1 = final(self).plugins_model();
                &&& pm1.len() == pm0.len()
                &&& forall|j: int| 0 <= j < pm0.len() ==> (#[trigger] pm1[j]).0 == pm0[j].0
                    && pm1[j].1.meta == pm0[j].1.meta && pm1[j].1.capabilities
                    == pm0[j].1.capabilities && (pm0[j].0 != rt ==> pm1[j] == pm0[j]) && (pm0[j].0
                    == rt ==> pm1[j].1.enabled == false)
            }),
    {
        self.set_enabled(name, false)
    }

    /// Set the enabled flag of the provider a name reaches.
    fn set_enabled(&mut self, name: &String, enabled: bool) -> (r: Result<(), PluginError>)
        ensures
            final(self).aliases_model() == old(self).aliases_model(),
            r is Ok <==> has_key(old(self).plugins_model(), old(self).resolve_spec(name@)),
            r is Err ==> final(self).plugins_model() == old(self).plugins_model(),
            r matches Err(e) ==> e is ExecutionFailed,
            old(self).wf() ==> final(self).wf(),
            (old(self).wf() && r is Ok) ==> ({
                let rt = old(self).resolve_spec(name@);
                let pm0 = old(self).plugins_model();
                let pm1 = final(self).plugins_model();
                &&& pm1.len() == pm0.len()
                &&& forall|j: int| 0 <= j < pm0.len() ==> (#[trigger] pm1[j]).0 == pm0[j].0
                    && pm1[j].1.meta == pm0[j].1.meta && pm1[j].1.capabilities
                    == pm0[j].1.capabilities && (pm0[j].0 != rt ==> pm1[j] == pm0[j]) && (pm0[j].0
                    == rt ==> pm1[j].1.enabled == enabled)
            }),
    {
        proof {
            reveal_strlit("Plugin '");
            reveal_strlit("' not found");
        }
        let real_name = self.resolve_name(name);
        match self.find_plugin(&real_name) {
            Some(i) => {
                let ghost before = self.plugins_model();
                self.plugins[i].1.enabled = enabled;
                proof {
                    assert(self.plugins_model().len() == before.len());
                    assert(forall|j: int| 0 <= j < before.len() && j != i as int
                        ==> #[trigger] self.plugins_model()[j] == before[j]);
                    assert(self.plugins_model()[i as int].0 == before[i as int].0);
                    assert(self.plugins_model()[i as int].1.meta == before[i as int].1.meta);
                    assert(self.plugins_model()[i as int].1.capabilities == before[
                        i as int
                    ].1.capabilities);
                    assert(self.plugins_model()[i as int].1.enabled == enabled);
                    assert(self.aliases_model() =~= old(self).aliases_model());
                    if old(self).wf() {
                        assert forall|j: int|
                            0 <= j < before.len() && before[j].0 == real_name@ && j != i as int
                            implies false by {
                            if j < i as int {
                                assert(before[j].0 != before[i as int].0);
                            } else {
                                assert(before[i as int].0 != before[j].0);
                            }
                        }
                    }
                }
                Ok(())
            },
            None => {
                let mut m = String::from_str("Plugin '");
                m.append(name.as_str());
                m.append("' not found");
                Err(PluginError::ExecutionFailed(m))
            },
        }
    }

    /// Remove the provider a name reaches, and purge every alias pointing
    /// at it; unknown names are an error and change nothing.
    pub fn unregister_plugin(&mut self, name: &String) -> (r: Result<(), PluginError>)
        ensures
            r is Ok <==> has_key(old(self).plugins_model(), old(self).resolve_spec(name@)),
            old(self).wf() ==> final(self).wf(),
            match r {
                Ok(_) => final(self).plugins_model() == remove_key(
                    old(self).plugins_model(),
                    old(self).resolve_spec(name@),
                ) && final(self).aliases_model() == purge_target(
                    old(self).aliases_model(),
                    old(self).resolve_spec(name@),
                ),
                Err(e) => final(self).plugins_model() == old(self).plugins_model()
                    && final(self).aliases_model() == old(self).aliases_model()
                    && e is ExecutionFailed,
            },
    {
        proof {
            reveal_strlit("Plugin '");
            reveal_strlit("' not found");
        }
        let real_name = self.resolve_name(name);
        let found = self.find_plugin(&real_name);
        if matches!(found, None) {
            let mut m = String::from_str("Plugin '");
            m.append(name.as_str());
            m.append("' not found");
            return Err(PluginError::ExecutionFailed(m));
        }
        let ghost pm0 = self.plugins_model();
        let ghost am0 = self.aliases_model();
        let ghost rn = real_name@;
        let mut rest: Vec<(String, PluginEntry<P>)> = Vec::new();
        core::mem::swap(&mut rest, &mut self.plugins);
        let mut kept: Vec<(String, PluginEntry<P>)> = Vec::new();
        proof {
            assert(pentries_model(rest@) =~= pm0);
            assert(pentries_model(kept@) =~= Seq::<(Seq<char>, EntryModel)>::empty());
            assert(pentries_model(kept@) + remove_key(pentries_model(rest@), rn) =~= remove_key(
                pm0,
                rn,
            ));
        }
        while rest.len() > 0
            invariant
                rn == real_name@,
                pentries_model(kept@) + remove_key(pentries_model(rest@), rn) == remove_key(
                    pm0,
                    rn,
                ),
            decreases rest@.len(),
        {
            let ghost rm = pentries_model(rest@);
            let head = rest.remove(0);
            proof {
                assert(pentries_model(rest@) =~= rm.drop_first());
                assert(rm[0] == (head.0@, EntryModel {
                    meta: head.1.metadata.model(),
                    capabilities: head.1.capabilities,
                    enabled: head.1.enabled,
                }));
            }
            if head.0 == real_name {
                proof {
                    assert(remove_key(rm, rn) == remove_key(rm.drop_first(), rn));
                }
            } else {
                let ghost km = pentries_model(kept@);
                kept.push(head);
                proof {
                    assert(pentries_model(kept@) =~= km.push(rm[0]));
                    assert(remove_key(rm, rn) == seq![rm[0]] + remove_key(rm.drop_first(), rn));
                    assert(pentries_model(kept@) + remove_key(pentries_model(rest@), rn) =~= km + (
                    seq![rm[0]] + remove_key(rm.drop_first(), rn)));
                }
            }
        }
        proof {
            assert(pentries_model(rest@) =~= Seq::<(Seq<char>, EntryModel)>::empty());
            assert(pentries_model(kept@) + Seq::<(Seq<char>, EntryModel)>::empty() =~= pentries_model(
                kept@,
            ));
        }
        core::mem::swap(&mut self.plugins, &mut kept);
        let mut arest: Vec<(String, String)> = Vec::new();
        core::mem::swap(&mut arest, &mut self.aliases);
        let mut akept: Vec<(String, String)> = Vec::new();
        proof {
            assert(aentries_model(arest@) =~= am0);
            assert(aentries_model(akept@) + purge_target(aentries_model(arest@), rn)
                =~= purge_target(am0, rn));
        }
        while arest.len() > 0
            invariant
                rn == real_name@,
                self.plugins_model() == remove_key(pm0, rn),
                aentries_model(akept@) + purge_target(aentries_model(arest@), rn) == purge_target(
                    am0,
                    rn,
                ),
            decreases arest@.len(),
        {
            let ghost rm = aentries_model(arest@);
            let head = arest.remove(0);
            proof {
                assert(aentries_model(arest@) =~= rm.drop_first());
                assert(rm[0] == (head.0@, head.1@));
            }
            if head.1 == real_name {
                proof {
                    assert(purge_target(rm, rn) == purge_target(rm.drop_first(), rn));
                }
            } else {
                let ghost km = aentries_model(akept@);
                akept.push(head);
                proof {
                    assert(aentries_model(akept@) =~= km.push(rm[0]));
                    assert(purge_target(rm, rn) == seq![rm[0]] + purge_target(rm.drop_first(), rn));
                    assert(aentries_model(akept@) + purge_target(aentries_model(arest@), rn) =~= km
                        + (seq![rm[0]] + purge_target(rm.drop_first(), rn)));
                }
            }
        }
        proof {
            assert(aentries_model(arest@) =~= Seq::<(Seq<char>, Seq<char>)>::empty());
            assert(aentries_model(akept@) + Seq::<(Seq<char>, Seq<char>)>::empty()
                =~= aentries_model(akept@));
        }
        core::mem::swap(&mut self.aliases, &mut akept);
        proof {
            if old(self).wf() {
                lemma_remove_key_unique(pm0, rn);
            }
        }
        Ok(())
    }

    /// Initialize every enabled provider, collecting per-provider failures
    /// rather than stopping at the first; the registry's own structure is
    /// never changed by initialization. Success returns an empty list.
    pub fn initialize_all(&mut self) -> (r: Result<Vec<String>, PluginError>)
        ensures
            final(self).plugins_model() == old(self).plugins_model(),
            final(self).aliases_model() == old(self).aliases_model(),
            old(self).wf() ==> final(self).wf(),
            r matches Ok(v) ==> v@.len() == 0,
            r matches Err(e) ==> e is InitializationFailed,
            (forall|j: int| 0 <= j < old(self).plugins_model().len() ==> !(#[trigger] old(
                self,
            ).plugins_model()[j]).1.enabled) ==> r is Ok,
    {
        proof {
            reveal_strlit("Failed to initialize plugins: ");
            reveal_strlit(": ");
            reveal_strlit(", ");
        }
        let ghost none_enabled = forall|j: int| 0 <= j < old(self).plugins_model().len() ==> !(
        #[trigger] old(self).plugins_model()[j]).1.enabled;
        let mut failed: Vec<String> = Vec::new();
        let mut i: usize = 0;
        while i < self.plugins.len()
            invariant
                i <= self.plugins@.len(),
                self.plugins_model() == old(self).plugins_model(),
                self.aliases_model() == old(self).aliases_model(),
                none_enabled == (forall|j: int| 0 <= j < old(self).plugins_model().len() ==> !(
                #[trigger] old(self).plugins_model()[j]).1.enabled),
                none_enabled ==> failed@.len() == 0,
            decreases self.plugins@.len() - i,
        {
            let ghost before = self.plugins_model();
            if self.plugins[i].1.enabled {
                proof {
                    assert(self.plugins_model()[i as int].1.enabled);
                }
                let res = self.plugins[i].1.plugin.initialize();
                proof {
                    assert(self.plugins_model() =~= before);
                }
                match res {
                    Ok(_) => {},
                    Err(e) => {
                        let mut item = self.plugins[i].0.clone();
                        item.append(": ");
                        item.append(e.message().as_str());
                        failed.push(item);
                    },
                }
            }
            i = i + 1;
        }
        if failed.len() == 0 {
            Ok(Vec::new())
        } else {
            let mut msg = String::from_str("Failed to initialize plugins: ");
            let mut k: usize = 0;
            while k < failed.len()
                decreases failed@.len() - k,
            {
                if k > 0 {
                    msg.append(", ");
                }
                msg.append(failed[k].as_str());
                k = k + 1;
            }
            Err(PluginError::InitializationFailed(msg))
        }
    }

    /// A listing of every registration, in order: each summary carries the
    /// provider's registered metadata and the aliases pointing at it.
    pub fn list_plugins(&self) -> (r: Vec<PluginRegistrationInfo>)
        ensures
            r@.len() == self.plugins_model().len(),
            forall|j: int| 0 <= j < r@.len() ==> info_matches(
                #[trigger] r@[j],
                self.plugins_model()[j],
                self.aliases_model(),
            ),
    {
        let ghost pm = self.plugins_model();
        let ghost am = self.aliases_model();
        let mut out: Vec<PluginRegistrationInfo> = Vec::new();
        let mut i: usize = 0;
        while i < self.plugins.len()
            invariant
                i <= self.plugins@.len(),
                pm == self.plugins_model(),
                am == self.aliases_model(),
                pm.len() == self.plugins@.len(),
                am.len() == self.aliases@.len(),
                out@.len() == i as int,
                forall|j: int| 0 <= j < i as int ==> info_matches(#[trigger] out@[j], pm[j], am),
            decreases self.plugins@.len() - i,
        {
            let entry = &self.plugins[i].1;
            let mut aliases: Vec<String> = Vec::new();
            let mut j: usize = 0;
            proof {
                assert(am.skip(0) =~= am);
                assert(names_model(aliases@) + aliases_of(am.skip(0), pm[i as int].0)
                    =~= aliases_of(am, pm[i as int].0));
            }
            while j < self.aliases.len()
                invariant
                    i < self.plugins@.len(),
                    j <= self.aliases@.len(),
                    pm == self.plugins_model(),
                    am == self.aliases_model(),
                    pm.len() == self.plugins@.len(),
                    am.len() == self.aliases@.len(),
                    names_model(aliases@) + aliases_of(am.skip(j as int), pm[i as int].0)
                        == aliases_of(am, pm[i as int].0),
                decreases self.aliases@.len() - j,
            {
                let ghost names_before = names_model(aliases@);
                proof {
                    assert(am.skip(j as int)[0] == am[j as int]);
                    assert(am.skip(j as int).drop_first() =~= am.skip(j as int + 1));
                }
                if self.aliases[j].1 == self.plugins[i].0 {
                    aliases.push(self.aliases[j].0.clone());
                    proof {
                        assert(names_model(aliases@) =~= names_before.push(am[j as int].0));
                        assert(names_model(aliases@) + aliases_of(am.skip(j as int + 1), pm[
                            i as int
                        ].0) =~= aliases_of(am, pm[i as int].0));
                    }
                } else {
                    proof {
                        assert(names_model(aliases@) + aliases_of(am.skip(j as int + 1), pm[
                            i as int
                        ].0) =~= aliases_of(am, pm[i as int].0));
                    }
                }
                j = j + 1;
            }
            proof {
                assert(am.skip(j as int).len() == 0);
                assert(names_model(aliases@) + Seq::<Seq<char>>::empty() =~= names_model(aliases@));
            }
            let mut methods: Vec<String> = Vec::new();
            let mut m: usize = 0;
            while m < entry.metadata.methods.len()
                invariant
                    i < self.plugins@.len(),
                    entry == &self.plugins@[i as int].1,
                    m <= entry.metadata.methods@.len(),
                    methods@.len() == m as int,
                    forall|k: int| 0 <= k < m as int ==> (#[trigger] methods@[k])@
                        == entry.metadata.methods@[k]@,
                decreases entry.metadata.methods@.len() - m,
            {
                methods.push(entry.metadata.methods[m].clone());
                m = m + 1;
            }
            proof {
                assert(names_model(methods@) =~= names_model(entry.metadata.methods@));
            }
            let info = PluginRegistrationInfo {
                name: entry.metadata.name.clone(),
                version: entry.metadata.version.clone(),
                description: entry.metadata.description.clone(),
                author: entry.metadata.author.clone(),
                methods,
                aliases,
            };
            proof {
                assert(pm[i as int].1.meta == self.plugins@[i as int].1.metadata.model());
                assert(info_matches(info, pm[i as int], am));
            }
            out.push(info);
            i = i + 1;
        }
        out
    }

    /// The names of the enabled providers whose capabilities satisfy a
    /// caller-supplied predicate: exactly the enabled entries, in
    /// registration order, for which the predicate returned true.
    pub fn get_plugins_by_capability<F: Fn(&PluginCapabilities) -> bool>(&self, check: F) -> (r:
        Vec<String>)
        requires
            forall|c: &PluginCapabilities| #[trigger] call_requires(check, (c,)),
        ensures
            r@.len() <= self.plugins_model().len(),
            exists|picks: Seq<bool>|
                #![trigger picked(self.plugins_model(), picks)]
                {
                    let pm = self.plugins_model();
                    &&& picks.len() == pm.len()
                    &&& (forall|j: int| 0 <= j < pm.len() && (#[trigger] pm[j]).1.enabled
                        ==> call_ensures(check, (&pm[j].1.capabilities,), picks[j]))
                    &&& names_model(r@) == picked(pm, picks)
                },
    {
        let ghost pm = self.plugins_model();
        let mut out: Vec<String> = Vec::new();
        let ghost mut picks: Seq<bool> = Seq::empty();
        let mut i: usize = 0;
        proof {
            assert(names_model(out@) =~= picked(pm, picks));
        }
        while i < self.plugins.len()
            invariant
                i <= self.plugins@.len(),
                pm == self.plugins_model(),
                pm.len() == self.plugins@.len(),
                out@.len() <= i as int,
                picks.len() == i as int,
                forall|c: &PluginCapabilities| #[trigger] call_requires(check, (c,)),
                forall|j: int| 0 <= j < i as int && (#[trigger] pm[j]).1.enabled ==> call_ensures(
                    check,
                    (&pm[j].1.capabilities,),
                    picks[j],
                ),
                names_model(out@) == picked(pm, picks),
            decreases self.plugins@.len() - i,
        {
            let entry = &self.plugins[i].1;
            let ghost names_before = names_model(out@);
            if entry.enabled {
                let ok = check(&entry.capabilities);
                if ok {
                    out.push(self.plugins[i].0.clone());
                }
                proof {
                    let prev = picks;
                    picks = picks.push(ok);
                    assert(picks.drop_last() =~= prev);
                    assert(picks.last() == ok);
                    assert(pm[i as int].1.enabled);
                    if ok {
                        assert(names_model(out@) =~= names_before.push(
                            self.plugins@[i as int].0@,
                        ));
                        assert(picked(pm, picks) == picked(pm, prev) + seq![pm[i as int].0]);
                        assert(names_model(out@) =~= picked(pm, picks));
                    } else {
                        assert(picked(pm, picks) == picked(pm, prev) + Seq::<Seq<char>>::empty());
                        assert(names_model(out@) =~= picked(pm, picks));
                    }
                }
            } else {
                proof {
                    let prev = picks;
                    picks = picks.push(false);
                    assert(picks.drop_last() =~= prev);
                    assert(!pm[i as int].1.enabled);
                    assert(picked(pm, picks) == picked(pm, prev) + Seq::<Seq<char>>::empty());
                    assert(names_model(out@) =~= picked(pm, picks));
                }
            }
            i = i + 1;
        }
        proof {
            assert(picks.len() == pm.len());
        }
        out
    }
}

/// The names of the enabled entries a run of predicate outcomes selects:
/// entry `j` appears exactly when it is enabled and the `j`-th outcome is
/// true, in order.
pub open spec fn picked(pm: Seq<(Seq<char>, EntryModel)>, picks: Seq<bool>) -> Seq<Seq<char>>
    decreases picks.len(),
{
    if picks.len() == 0 {
        Seq::empty()
    } else {
        let j = picks.len() - 1;
        picked(pm, picks.drop_last()) + if 0 <= j < pm.len() && pm[j].1.enabled && picks.last() {
            seq![pm[j].0]
        } else {
            Seq::empty()
        }
    }
}

/// The aliases pointing at a provider name, in registration order.
pub open spec fn aliases_of(am: Seq<(Seq<char>, Seq<char>)>, name: Seq<char>) -> Seq<Seq<char>>
    decreases am.len(),
{
    if am.len() == 0 {
        Seq::empty()
    } else {
        (if am[0].1 == name {
            seq![am[0].0]
        } else {
            Seq::empty()
        }) + aliases_of(am.drop_first(), name)
    }
}

/// Whether a listing summary reports one registry entry faithfully: the
/// registered metadata fields and the aliases pointing at the entry's name.
pub open spec fn info_matches(
    info: PluginRegistrationInfo,
    e: (Seq<char>, EntryModel),
    am: Seq<(Seq<char>, Seq<char>)>,
) -> bool {
    &&& info.name@ == e.1.meta.name
    &&& info.version@ == e.1.meta.version
    &&& info.description@ == e.1.meta.description
    &&& info.author@ == e.1.meta.author
    &&& names_model(info.methods@) == e.1.meta.methods
    &&& names_model(info.aliases@) == aliases_of(am, e.0)
}

/// The ghost view of a provider list.
pub open spec fn pentries_model<P: Plugin>(s: Seq<(String, PluginEntry<P>)>) -> Seq<
    (Seq<char>, EntryModel),
> {
    Seq::new(
        s.len(),
        |i: int|
            (
                s[i].0@,
                EntryModel {
                    meta: s[i].1.metadata.model(),
                    capabilities: s[i].1.capabilities,
                    enabled: s[i].1.enabled,
                },
            ),
    )
}

/// The ghost view of an alias list.
pub open spec fn aentries_model(s: Seq<(String, String)>) -> Seq<(Seq<char>, Seq<char>)> {
    Seq::new(
        s.len(),
        |i: int|
            if 0 <= i < s.len() {
                (s[i].0@, s[i].1@)
            } else {
                (Seq::empty(), Seq::empty())
            },
    )
}

/// An alias target exists exactly when the alias key is present.
pub proof fn lemma_alias_target_has_key(am: Seq<(Seq<char>, Seq<char>)>, name: Seq<char>)
    ensures
        alias_target(am, name) is Some ==> has_key(am, name),
    decreases am.len(),
{
    if am.len() > 0 && am[0].0 != name {
        lemma_alias_target_has_key(am.drop_first(), name);
        if alias_target(am.drop_first(), name) is Some {
            let i = choose|i: int|
                0 <= i < am.drop_first().len() && (#[trigger] am.drop_first()[i]).0 == name;
            assert(am[i + 1].0 == name);
        }
    }
}

/// A present alias key always yields a target.
pub proof fn lemma_no_alias_target_no_key(am: Seq<(Seq<char>, Seq<char>)>, name: Seq<char>)
    ensures
        alias_target(am, name) is None ==> !has_key(am, name),
    decreases am.len(),
{
    if am.len() > 0 && am[0].0 != name {
        lemma_no_alias_target_no_key(am.drop_first(), name);
        if alias_target(am, name) is None {
            assert forall|i: int| 0 <= i < am.len() implies (#[trigger] am[i]).0 != name by {
                if i > 0 {
                    assert(am.drop_first()[i - 1] == am[i]);
                }
            }
        }
    }
}

} // verus!
