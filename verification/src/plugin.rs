//! The plugin registry: a keyed context store handed to plugins, and a
//! manager that loads them.

use vstd::prelude::*;
use vstd::string::*;
use crate::strutil::{chars_vec, chars_to_string, append_str};

verus! {

/// An error raised by a plugin.
#[derive(Debug)]
pub struct PluginError {
    pub message: String,
}

impl PluginError {
    /// The error's display text.
    pub fn describe(&self) -> (r: String)
        ensures
            r@ == "Plugin error: "@ + self.message@,
    {
        let mut out: Vec<char> = Vec::new();
        append_str(&mut out, "Plugin error: ");
        append_str(&mut out, self.message.as_str());
        chars_to_string(&out)
    }
}

/// The store's mathematical form: key and value texts, in write order.
pub open spec fn ctx_view(s: Seq<(String, String)>) -> Seq<(Seq<char>, Seq<char>)> {
    s.map_values(|p: (String, String)| (p.0@, p.1@))
}

/// The value stored under a key: the last write wins.
pub open spec fn spec_get(vs: Seq<(Seq<char>, Seq<char>)>, k: Seq<char>) -> Option<Seq<char>>
    decreases vs.len(),
{
    if vs.len() == 0 {
        None
    } else if vs.last().0 == k {
        Some(vs.last().1)
    } else {
        spec_get(vs.drop_last(), k)
    }
}

/// The entries whose key is not `k`, in order.
pub open spec fn drop_entries(vs: Seq<(Seq<char>, Seq<char>)>, k: Seq<char>) -> Seq<
    (Seq<char>, Seq<char>),
>
    decreases vs.len(),
{
    if vs.len() == 0 {
        vs
    } else {
        let rest = drop_entries(vs.drop_last(), k);
        if vs.last().0 == k {
            rest
        } else {
            rest.push(vs.last())
        }
    }
}

/// Dropping one key's entries leaves every other key's lookup alone.
proof fn lemma_drop_entries_other(vs: Seq<(Seq<char>, Seq<char>)>, k: Seq<char>, k2: Seq<char>)
    requires
        k2 != k,
    ensures
        spec_get(drop_entries(vs, k), k2) == spec_get(vs, k2),
    decreases vs.len(),
{
    if vs.len() > 0 {
        lemma_drop_entries_other(vs.drop_last(), k, k2);
        if vs.last().0 != k {
            assert(drop_entries(vs, k).drop_last() =~= drop_entries(vs.drop_last(), k));
            assert(drop_entries(vs, k).last() == vs.last());
        }
    }
}

/// The dropped key is gone.
proof fn lemma_drop_entries_gone(vs: Seq<(Seq<char>, Seq<char>)>, k: Seq<char>)
    ensures
        spec_get(drop_entries(vs, k), k) is None,
    decreases vs.len(),
{
    if vs.len() > 0 {
        lemma_drop_entries_gone(vs.drop_last(), k);
        if vs.last().0 != k {
            assert(drop_entries(vs, k).drop_last() =~= drop_entries(vs.drop_last(), k));
            assert(drop_entries(vs, k).last() == vs.last());
        }
    }
}

/// Per-plugin storage: string values under string keys, a write to a
/// key replacing its value.
pub struct PluginContext {
    pub storage: Vec<(String, String)>,
}

impl PluginContext {
    /// A fresh, empty context.
    pub fn new() -> (r: PluginContext)
        ensures
            r.storage@.len() == 0,
    {
        PluginContext { storage: Vec::new() }
    }

    /// Drops every entry of `key`, keeping the rest in order.
    fn drop_key(&mut self, key: &str) -> (kept: ())
        ensures
            ctx_view(final(self).storage@) == drop_entries(ctx_view(old(self).storage@), key@),
    {
        let ghost vm = ctx_view(self.storage@);
        let mut kept: Vec<(String, String)> = Vec::new();
        let ks = String::from_str(key);
        let mut i: usize = 0;
        proof {
            assert(vm.take(0) =~= Seq::<(Seq<char>, Seq<char>)>::empty());
            assert(ctx_view(kept@) =~= drop_entries(vm.take(0), key@));
        }
        while i < self.storage.len()
            invariant
                i <= self.storage@.len(),
                vm == ctx_view(self.storage@),
                ks@ == key@,
                ctx_view(kept@) == drop_entries(vm.take(i as int), key@),
            decreases self.storage@.len() - i,
        {
            proof {
                assert(vm.take(i + 1 as int).drop_last() =~= vm.take(i as int));
                assert(vm.take(i + 1 as int).last() == vm[i as int]);
                assert(vm[i as int] == (self.storage@[i as int].0@, self.storage@[i as int].1@));
            }
            if !(self.storage[i].0 == ks) {
                let pair = (self.storage[i].0.clone(), self.storage[i].1.clone());
                let ghost km = ctx_view(kept@);
                kept.push(pair);
                proof {
                    assert(ctx_view(kept@) =~= km.push(vm[i as int]));
                }
            }
            i = i + 1;
        }
        proof {
            assert(vm.take(vm.len() as int) =~= vm);
        }
        self.storage = kept;
    }

    /// Stores `value` under `key`, replacing any previous value; every
    /// other key's lookup is untouched.
    pub fn set(&mut self, key: &str, value: String)
        ensures
            spec_get(ctx_view(final(self).storage@), key@) == Some(value@),
            forall|k2: Seq<char>| k2 != key@ ==> #[trigger] spec_get(
                ctx_view(final(self).storage@),
                k2,
            ) == spec_get(ctx_view(old(self).storage@), k2),
    {
        let ghost vm0 = ctx_view(self.storage@);
        self.drop_key(key);
        let ghost vmk = ctx_view(self.storage@);
        let ks = String::from_str(key);
        let ghost km = ctx_view(self.storage@);
        self.storage.push((ks, value));
        proof {
            assert(ctx_view(self.storage@) =~= km.push((key@, value@)));
            assert forall|k2: Seq<char>| k2 != key@ implies #[trigger] spec_get(
                ctx_view(self.storage@),
                k2,
            ) == spec_get(vm0, k2) by {
                assert(ctx_view(self.storage@).drop_last() =~= vmk);
                lemma_drop_entries_other(vm0, key@, k2);
            }
        }
    }

    /// The value stored under `key`.
    pub fn get(&self, key: &str) -> (r: Option<&String>)
        ensures
            match r {
                Some(v) => spec_get(ctx_view(self.storage@), key@) == Some(v@),
                None => spec_get(ctx_view(self.storage@), key@) is None,
            },
    {
        let ghost vm = ctx_view(self.storage@);
        let ks = String::from_str(key);
        let mut i: usize = self.storage.len();
        proof {
            assert(vm.take(vm.len() as int) =~= vm);
        }
        while i > 0
            invariant
                i <= self.storage@.len(),
                vm == ctx_view(self.storage@),
                ks@ == key@,
                spec_get(vm, key@) == spec_get(vm.take(i as int), key@),
            decreases i,
        {
            proof {
                assert(vm.take(i as int).drop_last() =~= vm.take(i - 1));
                assert(vm.take(i as int).last() == vm[i - 1]);
                assert(vm[i - 1] == (self.storage@[i - 1].0@, self.storage@[i - 1].1@));
            }
            if self.storage[i - 1].0 == ks {
                return Some(&self.storage[i - 1].1);
            }
            i = i - 1;
        }
        proof {
            assert(vm.take(0) =~= Seq::<(Seq<char>, Seq<char>)>::empty());
        }
        None
    }

    /// Removes and returns the value stored under `key`; every other
    /// key's lookup is untouched.
    pub fn remove(&mut self, key: &str) -> (r: Option<String>)
        ensures
            match r {
                Some(v) => spec_get(ctx_view(old(self).storage@), key@) == Some(v@),
                None => spec_get(ctx_view(old(self).storage@), key@) is None,
            },
            spec_get(ctx_view(final(self).storage@), key@) is None,
            forall|k2: Seq<char>| k2 != key@ ==> #[trigger] spec_get(
                ctx_view(final(self).storage@),
                k2,
            ) == spec_get(ctx_view(old(self).storage@), k2),
    {
        let ghost vm0 = ctx_view(self.storage@);
        let found = match self.get(key) {
            Some(v) => Some(v.clone()),
            None => None,
        };
        self.drop_key(key);
        proof {
            lemma_drop_entries_gone(vm0, key@);
            assert forall|k2: Seq<char>| k2 != key@ implies #[trigger] spec_get(
                ctx_view(self.storage@),
                k2,
            ) == spec_get(vm0, k2) by {
                lemma_drop_entries_other(vm0, key@, k2);
            }
        }
        found
    }
}

/// A registered plugin's descriptive card. Plugin behaviour itself is
/// the plugin author's code and stays outside the library.
#[derive(Debug, Clone)]
pub struct PluginInfo {
    pub name: String,
    pub version: String,
    pub description: String,
    pub author: String,
}

/// The interface a plugin implements. The hooks are the plugin author's
/// code; nothing is assumed of what they do.
pub trait VfioPlugin {
    /// The plugin's name.
    fn name(&self) -> String;

    /// The plugin's version.
    fn version(&self) -> String;

    /// A description of the plugin.
    fn description(&self) -> String;

    /// The plugin's author.
    fn author(&self) -> String;

    /// Called when the plugin is loaded.
    fn on_load(&self, context: &mut PluginContext) -> Result<(), PluginError>;

    /// Called when the plugin is unloaded.
    fn on_unload(&self, context: &mut PluginContext) -> Result<(), PluginError>;
}

/// Tracks the registered plugins and the context handed to each.
pub struct PluginManager {
    pub plugins: Vec<PluginInfo>,
    pub contexts: Vec<(String, PluginContext)>,
}

impl PluginManager {
    /// A manager with nothing registered.
    pub fn new() -> (r: PluginManager)
        ensures
            r.plugins@.len() == 0,
            r.contexts@.len() == 0,
    {
        PluginManager { plugins: Vec::new(), contexts: Vec::new() }
    }

    /// Registers a plugin: its load hook runs on a fresh context, and on
    /// success its card and the filled context are stored; a failing
    /// hook leaves the manager untouched.
    pub fn register_plugin<P: VfioPlugin>(&mut self, plugin: &P) -> (r: Result<(), PluginError>)
        ensures
            r is Ok ==> final(self).plugins@.len() == old(self).plugins@.len() + 1
                && final(self).contexts@.len() == old(self).contexts@.len() + 1,
            r is Err ==> *final(self) == *old(self),
    {
        let mut context = PluginContext::new();
        match plugin.on_load(&mut context) {
            Err(e) => Err(e),
            Ok(()) => {
                let info = PluginInfo {
                    name: plugin.name(),
                    version: plugin.version(),
                    description: plugin.description(),
                    author: plugin.author(),
                };
                let name = info.name.clone();
                self.plugins.push(info);
                self.contexts.push((name, context));
                Ok(())
            },
        }
    }

    /// The name and version of every registered plugin, in order.
    pub fn list_plugins(&self) -> (r: Vec<(String, String)>)
        ensures
            r@.len() == self.plugins@.len(),
            forall|i: int| 0 <= i < r@.len() ==> (#[trigger] r@[i]).0@ == self.plugins@[i].name@
                && r@[i].1@ == self.plugins@[i].version@,
    {
        let mut out: Vec<(String, String)> = Vec::new();
        let mut i: usize = 0;
        while i < self.plugins.len()
            invariant
                i <= self.plugins@.len(),
                out@.len() == i,
                forall|k: int| 0 <= k < i ==> (#[trigger] out@[k]).0@ == self.plugins@[k].name@
                    && out@[k].1@ == self.plugins@[k].version@,
            decreases self.plugins@.len() - i,
        {
            out.push((self.plugins[i].name.clone(), self.plugins[i].version.clone()));
            i = i + 1;
        }
        out
    }
}

/// Loading plugins from dynamic libraries is not implemented; the call
/// says so.
pub fn load_plugin(_path: &str) -> (r: Result<PluginInfo, PluginError>)
    ensures
        r matches Err(e) && e.message@ == "Dynamic plugin loading not implemented yet"@,
{
    Err(PluginError { message: String::from_str("Dynamic plugin loading not implemented yet") })
}

} // verus!
