//! Kernel modules that have been loaded on a device.
//!
//! `M` is the handle of a loaded module. Built-in modules are known by their
//! index, custom ones by their name.
use vstd::hash_map::StringHashMap;
use vstd::prelude::*;

verus! {

/// The built-in modules, each loaded at most once.
#[verifier::reject_recursive_types(M)]
pub struct ModuleStore<M> {
    mdls: Vec<Option<M>>,
}

impl<M> View for ModuleStore<M> {
    type V = Seq<Option<M>>;

    closed spec fn view(&self) -> Seq<Option<M>> {
        self.mdls@
    }
}

impl<M> ModuleStore<M> {
    /// A store for `n` modules, none of them loaded.
    pub fn new(n: usize) -> (s: Self)
        ensures
            s@ == Seq::new(n as nat, |i: int| None::<M>),
    {
        let mut mdls: Vec<Option<M>> = Vec::new();
        let mut i: usize = 0;
        while i < n
            invariant
                0 <= i <= n,
                mdls@ == Seq::new(i as nat, |k: int| None::<M>),
            decreases n - i,
        {
            mdls.push(None);
            assert(mdls@ =~= Seq::new((i + 1) as nat, |k: int| None::<M>));
            i = i + 1;
        }
        ModuleStore { mdls }
    }

    /// The number of built-in modules.
    pub fn len(&self) -> (n: usize)
        ensures
            n == self@.len(),
    {
        self.mdls.len()
    }

    /// The module at `index`, if it has been loaded.
    pub fn loaded(&self, index: usize) -> (m: Option<&M>)
        requires
            index < self@.len(),
        ensures
            m.is_some() <==> self@[index as int].is_some(),
            m matches Some(m) ==> self@[index as int] == Some(*m),
    {
        self.mdls[index].as_ref()
    }

    /// Keep the module that was loaded for `index`. One that another thread loaded
    /// in the meantime is replaced.
    pub fn keep(&mut self, index: usize, module: M)
        requires
            index < old(self)@.len(),
        ensures
            final(self)@ == old(self)@.update(index as int, Some(module)),
    {
        self.mdls.set(index, Some(module));
    }
}

/// The custom modules by name.
#[verifier::reject_recursive_types(M)]
pub struct CustomModules<M> {
    mdls: StringHashMap<M>,
}

impl<M> View for CustomModules<M> {
    type V = Map<Seq<char>, M>;

    closed spec fn view(&self) -> Map<Seq<char>, M> {
        self.mdls@
    }
}

impl<M> CustomModules<M> {
    /// No module has been loaded.
    pub fn new() -> (s: Self)
        ensures
            s@ == Map::<Seq<char>, M>::empty(),
    {
        CustomModules { mdls: StringHashMap::new() }
    }

    /// The module of that name, if it has been loaded.
    pub fn loaded(&self, name: &str) -> (m: Option<&M>)
        ensures
            m.is_some() <==> self@.contains_key(name@),
            m matches Some(m) ==> self@[name@] == *m,
    {
        self.mdls.get(name)
    }

    /// Keep the module that was loaded under that name. One that another thread
    /// loaded in the meantime is replaced.
    pub fn keep(&mut self, name: &str, module: M)
        ensures
            final(self)@ == old(self)@.insert(name@, module),
    {
        self.mdls.insert(name.to_owned(), module);
    }
}

} // verus!
