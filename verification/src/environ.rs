//! Environments: a chain of scopes, each a mapping from names to values.
//!
//! The model of an environment is the sequence of its scopes' maps, the
//! root first and the current scope last. Looking a name up walks from the
//! current scope towards the root.

use vstd::prelude::*;
use vstd::string::StringExecFns;

verus! {

/// The model of a chain of scopes: one map per scope, root first.
pub type Chain<T> = Seq<Map<Seq<char>, T>>;

/// The value bound to `name` in the nearest scope that declares it.
pub open spec fn chain_lookup<T>(chain: Chain<T>, name: Seq<char>) -> Option<T>
    decreases chain.len(),
{
    if chain.len() == 0 {
        None
    } else if chain.last().contains_key(name) {
        Some(chain.last()[name])
    } else {
        chain_lookup(chain.drop_last(), name)
    }
}

/// The chain after `name` is declared in the current scope. Only the last
/// map changes.
pub open spec fn chain_declare<T>(chain: Chain<T>, name: Seq<char>, value: T) -> Chain<T>
    recommends
        chain.len() > 0,
{
    chain.update(chain.len() - 1, chain.last().insert(name, value))
}

/// The chain after `value` is assigned to `name` in the nearest scope that
/// declares it, or `None` where no scope does.
pub open spec fn chain_assign<T>(chain: Chain<T>, name: Seq<char>, value: T) -> Option<Chain<T>>
    decreases chain.len(),
{
    if chain.len() == 0 {
        None
    } else if chain.last().contains_key(name) {
        Some(chain.update(chain.len() - 1, chain.last().insert(name, value)))
    } else {
        match chain_assign(chain.drop_last(), name, value) {
            Some(outer) => Some(outer.push(chain.last())),
            None => None,
        }
    }
}

/// Whether two chains have the same scopes with the same names in each:
/// nothing was declared between the one and the other.
pub open spec fn same_names<T>(a: Chain<T>, b: Chain<T>) -> bool {
    &&& a.len() == b.len()
    &&& forall|i: int| 0 <= i < a.len() ==> (#[trigger] a[i]).dom() == b[i].dom()
}

/// The error of an assignment to a name that no scope declares.
#[derive(Debug, PartialEq, Eq, Structural, Clone, Copy)]
pub struct NotFound;

/// One scope: its names, each once, and their values at the same indices.
struct Scope<V> {
    names: Vec<String>,
    values: Vec<V>,
}

/// A chain of scopes. The last scope is the current one.
pub struct Environment<V> {
    scopes: Vec<Scope<V>>,
}

impl<V: View> Scope<V> {
    /// The two vectors run in step and no name occurs twice.
    spec fn wf(&self) -> bool {
        &&& self.names.len() == self.values.len()
        &&& forall|i: int, j: int|
            0 <= i < j < self.names.len() ==> self.names[i]@ != self.names[j]@
    }

    /// Whether `name` stands at index `i`.
    spec fn at(&self, i: int, name: Seq<char>) -> bool {
        0 <= i < self.names.len() && self.names[i]@ == name
    }

    /// The mapping that the scope holds.
    spec fn bindings(&self) -> Map<Seq<char>, V::V> {
        Map::new(
            |name: Seq<char>| exists|i: int| self.at(i, name),
            |name: Seq<char>| self.values[choose|i: int| self.at(i, name)]@,
        )
    }

    proof fn lemma_bound(&self, i: int)
        requires
            self.wf(),
            0 <= i < self.names.len(),
        ensures
            self.bindings().contains_key(self.names[i]@),
            self.bindings()[self.names[i]@] == self.values[i]@,
    {
        let name = self.names[i]@;
        assert(self.at(i, name));
        let k = choose|k: int| self.at(k, name);
        assert(self.at(k, name));
        if k < i {
            assert(self.names[k]@ != self.names[i]@);
        } else if i < k {
            assert(self.names[i]@ != self.names[k]@);
        }
    }

    fn empty() -> (s: Self)
        ensures
            s.wf(),
            s.bindings() == Map::<Seq<char>, V::V>::empty(),
    {
        let s = Scope { names: Vec::new(), values: Vec::new() };
        assert(s.bindings() =~= Map::<Seq<char>, V::V>::empty());
        s
    }

    /// The index at which `name` stands, if it is declared here.
    fn find(&self, name: &str) -> (r: Option<usize>)
        requires
            self.wf(),
        ensures
            match r {
                Some(i) => self.at(i as int, name@) && self.bindings().contains_key(name@)
                    && self.bindings()[name@] == self.values[i as int]@,
                None => !self.bindings().contains_key(name@),
            },
    {
        let mut i: usize = 0;
        while i < self.names.len()
            invariant
                self.wf(),
                i <= self.names.len(),
                forall|k: int| 0 <= k < i ==> self.names[k]@ != name@,
            decreases self.names.len() - i,
        {
            if self.names[i].as_str().eq(name) {
                proof {
                    self.lemma_bound(i as int);
                }
                return Some(i);
            }
            i += 1;
        }
        assert(forall|k: int| !self.at(k, name@));
        None
    }

    /// Binds `name` to `value`, in place of an earlier binding of `name`.
    fn bind(&mut self, name: &str, value: V)
        requires
            old(self).wf(),
        ensures
            final(self).wf(),
            final(self).bindings() == old(self).bindings().insert(name@, value@),
    {
        let found = self.find(name);
        match found {
            Some(i) => {
                self.values[i] = value;
                assert(self.wf());
                assert forall|k: Seq<char>| #[trigger]
                    self.bindings().contains_key(k) <==> old(self).bindings().insert(
                        name@,
                        value@,
                    ).contains_key(k) by {
                    if self.bindings().contains_key(k) {
                        let j = choose|j: int| self.at(j, k);
                        assert(old(self).at(j, k));
                    }
                    if old(self).bindings().contains_key(k) {
                        let j = choose|j: int| old(self).at(j, k);
                        assert(self.at(j, k));
                    }
                    if k == name@ {
                        assert(self.at(i as int, k));
                    }
                }
                assert forall|k: Seq<char>| #[trigger]
                    self.bindings().contains_key(k) implies self.bindings()[k] == old(
                    self,
                ).bindings().insert(name@, value@)[k] by {
                    let j = choose|j: int| self.at(j, k);
                    assert(self.at(j, k));
                    self.lemma_bound(j);
                    assert(old(self).at(j, k));
                    old(self).lemma_bound(j);
                    if k == name@ {
                        assert(self.at(i as int, k));
                        if j < i as int {
                            assert(self.names[j]@ != self.names[i as int]@);
                        } else if (i as int) < j {
                            assert(self.names[i as int]@ != self.names[j]@);
                        }
                    } else {
                        assert(j != i as int);
                    }
                }
                assert(self.bindings() =~= old(self).bindings().insert(name@, value@));
            },
            None => {
                assert(forall|k: int| !old(self).at(k, name@)) by {
                    assert forall|k: int| !old(self).at(k, name@) by {
                        if old(self).at(k, name@) {
                            assert(old(self).bindings().contains_key(name@));
                        }
                    }
                }
                self.names.push(String::from_str(name));
                self.values.push(value);
                let ghost n = old(self).names.len() as int;
                assert(self.names@ == old(self).names@.push(self.names[n]));
                assert(self.wf()) by {
                    assert forall|i: int, j: int|
                        0 <= i < j < self.names.len() implies self.names[i]@ != self.names[j]@ by {
                        if j == n {
                            assert(!old(self).at(i, name@));
                        }
                    }
                }
                assert forall|k: Seq<char>| #[trigger]
                    self.bindings().contains_key(k) <==> old(self).bindings().insert(
                        name@,
                        value@,
                    ).contains_key(k) by {
                    if self.bindings().contains_key(k) {
                        let j = choose|j: int| self.at(j, k);
                        if j < n {
                            assert(old(self).at(j, k));
                        }
                    }
                    if old(self).bindings().contains_key(k) {
                        let j = choose|j: int| old(self).at(j, k);
                        assert(self.at(j, k));
                    }
                    if k == name@ {
                        assert(self.at(n, k));
                    }
                }
                assert forall|k: Seq<char>| #[trigger]
                    self.bindings().contains_key(k) implies self.bindings()[k] == old(
                    self,
                ).bindings().insert(name@, value@)[k] by {
                    let j = choose|j: int| self.at(j, k);
                    assert(self.at(j, k));
                    self.lemma_bound(j);
                    if j < n {
                        assert(old(self).at(j, k));
                        old(self).lemma_bound(j);
                    }
                }
                assert(self.bindings() =~= old(self).bindings().insert(name@, value@));
            },
        }
    }
}

impl<V: View> View for Environment<V> {
    type V = Chain<V::V>;

    closed spec fn view(&self) -> Chain<V::V> {
        Seq::new(self.scopes.len() as nat, |i: int| self.scopes[i].bindings())
    }
}

impl<V: View> Environment<V> {
    /// There is a current scope, and every scope is well formed.
    pub closed spec fn wf(&self) -> bool {
        &&& self.scopes.len() >= 1
        &&& forall|i: int| 0 <= i < self.scopes.len() ==> #[trigger] self.scopes[i].wf()
    }

    /// A well-formed environment has at least one scope.
    pub proof fn lemma_depth(&self)
        requires
            self.wf(),
        ensures
            self@.len() >= 1,
    {
    }

    /// A new, empty scope: the root of a chain where `parent` is `None`,
    /// else the current scope of a chain that goes on with `parent`'s.
    pub fn new(parent: Option<Environment<V>>) -> (env: Environment<V>)
        requires
            parent matches Some(p) ==> p.wf(),
        ensures
            env.wf(),
            env@ == match parent {
                Some(p) => p@.push(Map::empty()),
                None => seq![Map::empty()],
            },
    {
        let mut env = match parent {
            Some(p) => p,
            None => Environment { scopes: Vec::new() },
        };
        let ghost before = env;
        env.scopes.push(Scope::empty());
        assert(env@ =~= before@.push(Map::empty()));
        assert(parent is None ==> before@ =~= Seq::<Map<Seq<char>, V::V>>::empty());
        env
    }

    /// Declares `name` in the current scope, in place of an earlier
    /// declaration of `name` in that scope. Outer scopes are left as they are:
    /// a binding of `name` there is shadowed.
    pub fn declare(&mut self, name: &str, value: V)
        requires
            old(self).wf(),
        ensures
            final(self).wf(),
            final(self)@ == chain_declare(old(self)@, name@, value@),
    {
        let last = self.scopes.len() - 1;
        self.scopes[last].bind(name, value);
        assert(self.scopes.len() == old(self).scopes.len());
        assert(forall|k: int|
            0 <= k < self.scopes.len() && k != last ==> self.scopes[k] == old(self).scopes[k]);
        assert(self@ =~= chain_declare(old(self)@, name@, value@));
    }

    /// The value of `name` in the nearest scope that declares it.
    pub fn lookup(&self, name: &str) -> (r: Option<&V>)
        requires
            self.wf(),
        ensures
            match r {
                Some(v) => chain_lookup(self@, name@) == Some(v@),
                None => chain_lookup(self@, name@) is None,
            },
    {
        let mut n: usize = self.scopes.len();
        assert(self@.take(n as int) =~= self@);
        while n > 0
            invariant
                self.wf(),
                n <= self.scopes.len(),
                chain_lookup(self@, name@) == chain_lookup(self@.take(n as int), name@),
            decreases n,
        {
            let scope = &self.scopes[n - 1];
            let ghost chain = self@.take(n as int);
            assert(chain.last() == scope.bindings());
            assert(chain.drop_last() =~= self@.take(n - 1));
            match scope.find(name) {
                Some(i) => {
                    return Some(&scope.values[i]);
                },
                None => {},
            }
            n -= 1;
        }
        assert(self@.take(0).len() == 0);
        None
    }

    /// Gives `name` the value `value` in the nearest scope that declares it,
    /// and changes no other binding. Where no scope declares `name`, nothing
    /// changes and the result is `NotFound`.
    pub fn assign(&mut self, name: &str, value: V) -> (r: Result<(), NotFound>)
        requires
            old(self).wf(),
        ensures
            final(self).wf(),
            match r {
                Ok(_) => chain_assign(old(self)@, name@, value@) == Some(final(self)@),
                Err(_) => chain_assign(old(self)@, name@, value@) is None && final(self)@ == old(
                    self,
                )@,
            },
    {
        let mut n: usize = self.scopes.len();
        let mut at: Option<usize> = None;
        while n > 0 && at.is_none()
            invariant
                self.wf(),
                n <= self.scopes.len(),
                at is None ==> forall|k: int|
                    n <= k < self.scopes.len() ==> !(#[trigger] self@[k]).contains_key(name@),
                at matches Some(i) ==> {
                    &&& i == n
                    &&& n < self.scopes.len()
                    &&& self@[n as int].contains_key(name@)
                    &&& forall|k: int|
                        n < k < self.scopes.len() ==> !(#[trigger] self@[k]).contains_key(name@)
                },
            decreases n + if at is None { 1nat } else { 0nat },
        {
            match self.scopes[n - 1].find(name) {
                Some(_) => {
                    at = Some(n - 1);
                },
                None => {},
            }
            n -= 1;
        }
        match at {
            Some(i) => {
                self.scopes[i].bind(name, value);
                assert(self.scopes.len() == old(self).scopes.len());
                assert(forall|k: int|
                    0 <= k < self.scopes.len() && k != i ==> self.scopes[k] == old(self).scopes[k]);
                assert(self@ =~= old(self)@.update(
                    i as int,
                    old(self)@[i as int].insert(name@, value@),
                ));
                proof {
                    lemma_assign_at(old(self)@, name@, value@, i as int);
                }
                Ok(())
            },
            None => {
                proof {
                    lemma_assign_none(self@, name@, value@);
                }
                Err(NotFound)
            },
        }
    }
}

/// Where the nearest scope that declares `name` is the one at index `i`,
/// assigning changes the map at `i` and no other.
proof fn lemma_assign_at<T>(chain: Chain<T>, name: Seq<char>, value: T, i: int)
    requires
        0 <= i < chain.len(),
        chain[i].contains_key(name),
        forall|k: int| i < k < chain.len() ==> !(#[trigger] chain[k]).contains_key(name),
    ensures
        chain_assign(chain, name, value) == Some(chain.update(i, chain[i].insert(name, value))),
    decreases chain.len(),
{
    if i == chain.len() - 1 {
    } else {
        let outer = chain.drop_last();
        assert(!chain[chain.len() - 1].contains_key(name));
        lemma_assign_at(outer, name, value, i);
        assert(outer.update(i, outer[i].insert(name, value)).push(chain.last()) =~= chain.update(
            i,
            chain[i].insert(name, value),
        ));
    }
}

/// Where no scope declares `name`, assigning fails.
proof fn lemma_assign_none<T>(chain: Chain<T>, name: Seq<char>, value: T)
    requires
        forall|k: int| 0 <= k < chain.len() ==> !(#[trigger] chain[k]).contains_key(name),
    ensures
        chain_assign(chain, name, value) is None,
    decreases chain.len(),
{
    if chain.len() > 0 {
        assert(!chain[chain.len() - 1].contains_key(name));
        lemma_assign_none(chain.drop_last(), name, value);
    }
}

// ----------------------------------------------------------------------
// Laws of chains
// ----------------------------------------------------------------------

/// A name that has just been declared is found, with the value it was
/// declared with.
pub proof fn lemma_declare_then_lookup<T>(chain: Chain<T>, name: Seq<char>, value: T)
    requires
        chain.len() > 0,
    ensures
        chain_lookup(chain_declare(chain, name, value), name) == Some(value),
{
}

/// A declaration changes the value of no other name.
pub proof fn lemma_declare_keeps_others<T>(
    chain: Chain<T>,
    name: Seq<char>,
    value: T,
    other: Seq<char>,
)
    requires
        chain.len() > 0,
        other != name,
    ensures
        chain_lookup(chain_declare(chain, name, value), other) == chain_lookup(chain, other),
{
    assert(chain_declare(chain, name, value).drop_last() =~= chain.drop_last());
}

/// A declaration shadows: the outer scopes are left as they are, a binding
/// of the same name among them included.
pub proof fn lemma_declare_shadows<T>(chain: Chain<T>, name: Seq<char>, value: T)
    requires
        chain.len() > 0,
    ensures
        chain_declare(chain, name, value).len() == chain.len(),
        chain_declare(chain, name, value).drop_last() == chain.drop_last(),
{
    assert(chain_declare(chain, name, value).drop_last() =~= chain.drop_last());
}

/// Declaring a name a second time in the same scope overwrites: two
/// declarations in a row leave what the second alone would leave.
pub proof fn lemma_redeclare_overwrites<T>(chain: Chain<T>, name: Seq<char>, first: T, second: T)
    requires
        chain.len() > 0,
    ensures
        chain_declare(chain_declare(chain, name, first), name, second) == chain_declare(
            chain,
            name,
            second,
        ),
{
    assert(chain.last().insert(name, first).insert(name, second) =~= chain.last().insert(
        name,
        second,
    ));
    assert(chain_declare(chain_declare(chain, name, first), name, second) =~= chain_declare(
        chain,
        name,
        second,
    ));
}

/// An assignment succeeds exactly where the name is found.
pub proof fn lemma_assign_succeeds_where_found<T>(chain: Chain<T>, name: Seq<char>, value: T)
    ensures
        chain_assign(chain, name, value) is Some <==> chain_lookup(chain, name) is Some,
    decreases chain.len(),
{
    if chain.len() > 0 && !chain.last().contains_key(name) {
        lemma_assign_succeeds_where_found(chain.drop_last(), name, value);
    }
}

/// After an assignment the name has the new value, every other name has
/// the value it had, and the chain has the scopes it had, each with the
/// names it had: an assignment declares nothing.
pub proof fn lemma_assign_then_lookup<T>(
    chain: Chain<T>,
    name: Seq<char>,
    value: T,
    other: Seq<char>,
)
    requires
        chain_assign(chain, name, value) is Some,
    ensures
        chain_lookup(chain_assign(chain, name, value)->0, name) == Some(value),
        other != name ==> chain_lookup(chain_assign(chain, name, value)->0, other) == chain_lookup(
            chain,
            other,
        ),
        same_names(chain_assign(chain, name, value)->0, chain),
    decreases chain.len(),
{
    let after = chain_assign(chain, name, value)->0;
    if chain.last().contains_key(name) {
        assert(after.drop_last() =~= chain.drop_last());
        assert(chain.last().insert(name, value).dom() =~= chain.last().dom());
    } else {
        lemma_assign_then_lookup(chain.drop_last(), name, value, other);
        let outer = chain_assign(chain.drop_last(), name, value)->0;
        assert(after.drop_last() =~= outer);
        assert forall|i: int| 0 <= i < after.len() implies (#[trigger] after[i]).dom()
            == chain[i].dom() by {
            if i < chain.len() - 1 {
                assert(after[i] == outer[i]);
                assert(chain.drop_last()[i] == chain[i]);
            }
        }
    }
}

} // verus!
