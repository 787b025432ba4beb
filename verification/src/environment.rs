//! The chain of lexical scopes.
//!
//! A scope must stay alive and mutable while inner blocks come and go, so
//! the chain is held as an arena: a vector of scope nodes, each with the
//! index of its enclosing node, plus the index of the innermost active
//! node. Lookup and assignment walk outward from the innermost node to the
//! global node and stop at the first node whose mapping knows the name.

use crate::value::{SpecValue, Value};
use vstd::prelude::*;

verus! {

broadcast use vstd::std_specs::vec::group_vec_axioms;

/// One scope node: a name-to-value mapping and the handle of the
/// enclosing node, if any.
pub struct Scope {
    pub parent: Option<usize>,
    table: Vec<(String, Value)>,
}

/// The mathematical value of a scope node.
#[verifier::ext_equal]
pub struct ScopeV {
    pub parent: Option<int>,
    pub table: Map<Seq<char>, SpecValue>,
}

/// The mapping an association list denotes; a later entry for the same
/// name would win, though scope tables keep names unique.
pub open spec fn assoc_map(s: Seq<(String, Value)>) -> Map<Seq<char>, SpecValue>
    decreases s,
{
    if s.len() == 0 {
        Map::empty()
    } else {
        assoc_map(s.drop_last()).insert(s.last().0@, s.last().1@)
    }
}

/// Names are unique within one scope node.
pub open spec fn unique_keys(s: Seq<(String, Value)>) -> bool {
    forall|i: int, j: int| 0 <= i < j < s.len() ==> (#[trigger] s[i]).0@ != (#[trigger] s[j]).0@
}

impl View for Scope {
    type V = ScopeV;

    closed spec fn view(&self) -> ScopeV {
        ScopeV {
            parent: match self.parent {
                Option::Some(p) => Option::Some(p as int),
                Option::None => Option::None,
            },
            table: assoc_map(self.table@),
        }
    }
}

proof fn lemma_assoc_contains(s: Seq<(String, Value)>, name: Seq<char>)
    ensures
        assoc_map(s).contains_key(name) <==> exists|i: int|
            0 <= i < s.len() && (#[trigger] s[i]).0@ == name,
    decreases s,
{
    if s.len() > 0 {
        lemma_assoc_contains(s.drop_last(), name);
        if s.last().0@ == name {
            assert(s[s.len() - 1].0@ == name);
        } else {
            if assoc_map(s).contains_key(name) {
                let i = choose|i: int| 0 <= i < s.drop_last().len() && (#[trigger] s.drop_last()[
                    i]).0@ == name;
                assert(s[i].0@ == name);
            }
            if exists|i: int| 0 <= i < s.len() && (#[trigger] s[i]).0@ == name {
                let i = choose|i: int| 0 <= i < s.len() && (#[trigger] s[i]).0@ == name;
                assert(i < s.len() - 1);
                assert(s.drop_last()[i].0@ == name);
            }
        }
    }
}

proof fn lemma_assoc_at(s: Seq<(String, Value)>, i: int)
    requires
        unique_keys(s),
        0 <= i < s.len(),
    ensures
        assoc_map(s).contains_key(s[i].0@),
        assoc_map(s)[s[i].0@] == s[i].1@,
    decreases s,
{
    if i == s.len() - 1 {
    } else {
        lemma_assoc_at(s.drop_last(), i);
        assert(s.drop_last()[i] == s[i]);
        assert(s[i].0@ != s.last().0@);
    }
}

proof fn lemma_assoc_update(s: Seq<(String, Value)>, i: int, p: (String, Value))
    requires
        unique_keys(s),
        0 <= i < s.len(),
        s[i].0@ == p.0@,
    ensures
        assoc_map(s.update(i, p)) =~= assoc_map(s).insert(p.0@, p.1@),
    decreases s,
{
    if i == s.len() - 1 {
        assert(s.update(i, p).drop_last() =~= s.drop_last());
        assert(s.update(i, p).last() == p);
    } else {
        lemma_assoc_update(s.drop_last(), i, p);
        assert(s.update(i, p).drop_last() =~= s.drop_last().update(i, p));
        assert(s.update(i, p).last() == s.last());
        assert(s[i].0@ != s.last().0@);
    }
}

impl Scope {
    /// Tables start well formed and stay so; contracts carry this.
    pub closed spec fn wf(&self) -> bool {
        unique_keys(self.table@)
    }

    fn lookup(&self, name: &String) -> (r: Option<Value>)
        requires
            self.wf(),
        ensures
            match r {
                Option::Some(v) => self@.table.contains_key(name@) && v@ == self@.table[name@],
                Option::None => !self@.table.contains_key(name@),
            },
    {
        let n = self.table.len();
        let mut k: usize = 0;
        while k < n
            invariant
                self.wf(),
                n == self.table@.len(),
                0 <= k <= n,
                forall|i: int| 0 <= i < k ==> (#[trigger] self.table@[i]).0@ != name@,
            decreases n - k,
        {
            if self.table[k].0.eq(name) {
                proof {
                    lemma_assoc_at(self.table@, k as int);
                }
                return Option::Some(self.table[k].1.duplicate());
            }
            k += 1;
        }
        proof {
            lemma_assoc_contains(self.table@, name@);
        }
        Option::None
    }

    fn put(&mut self, name: &String, value: Value)
        requires
            old(self).wf(),
        ensures
            final(self).wf(),
            final(self)@.parent == old(self)@.parent,
            final(self)@.table =~= old(self)@.table.insert(name@, value@),
    {
        let n = self.table.len();
        let mut k: usize = 0;
        while k < n
            invariant
                self == old(self),
                self.wf(),
                n == self.table@.len(),
                0 <= k <= n,
                forall|i: int| 0 <= i < k ==> (#[trigger] self.table@[i]).0@ != name@,
            decreases n - k,
        {
            if self.table[k].0.eq(name) {
                let ghost oldtab = self.table@;
                self.table[k] = (name.clone(), value);
                proof {
                    let p = self.table@[k as int];
                    assert(self.table@ =~= oldtab.update(k as int, p));
                    lemma_assoc_update(oldtab, k as int, p);
                    assert(unique_keys(self.table@));
                }
                return ;
            }
            k += 1;
        }
        proof {
            lemma_assoc_contains(self.table@, name@);
        }
        let ghost oldtab = self.table@;
        self.table.push((name.clone(), value));
        proof {
            assert(self.table@.drop_last() =~= oldtab);
            assert(unique_keys(self.table@));
        }
    }
}

/// The arena of scope nodes with the handle of the innermost active one.
pub struct Environment {
    scopes: Vec<Scope>,
    cur: usize,
}

/// The mathematical value of an environment: the scope nodes and the
/// handle of the innermost active one.
#[verifier::ext_equal]
pub struct EnvV {
    pub scopes: Seq<ScopeV>,
    pub cur: int,
}

impl View for Environment {
    type V = EnvV;

    closed spec fn view(&self) -> EnvV {
        EnvV { scopes: Seq::new(self.scopes@.len(), |i: int| self.scopes@[i]@), cur: self.cur as int }
    }
}

/// Every node's enclosing handle points strictly earlier in the arena, and
/// the active handle is in range.
pub open spec fn wf_env(e: EnvV) -> bool {
    &&& 0 <= e.cur < e.scopes.len()
    &&& forall|i: int|
        0 <= i < e.scopes.len() ==> ((#[trigger] e.scopes[i]).parent matches Option::Some(p) ==> 0
            <= p < i)
}

/// The value the name denotes, found by walking outward from node `i`.
pub open spec fn chain_lookup(scopes: Seq<ScopeV>, i: int, name: Seq<char>) -> Option<SpecValue>
    decreases i,
{
    if 0 <= i < scopes.len() {
        if scopes[i].table.contains_key(name) {
            Option::Some(scopes[i].table[name])
        } else {
            match scopes[i].parent {
                Option::Some(p) => if 0 <= p < i {
                    chain_lookup(scopes, p, name)
                } else {
                    Option::None
                },
                Option::None => Option::None,
            }
        }
    } else {
        Option::None
    }
}

/// The arena after assigning to the innermost node that knows the name,
/// walking outward from node `i`; `None` when no node knows it.
pub open spec fn chain_assign(
    scopes: Seq<ScopeV>,
    i: int,
    name: Seq<char>,
    v: SpecValue,
) -> Option<Seq<ScopeV>>
    decreases i,
{
    if 0 <= i < scopes.len() {
        if scopes[i].table.contains_key(name) {
            Option::Some(
                scopes.update(
                    i,
                    ScopeV { parent: scopes[i].parent, table: scopes[i].table.insert(name, v) },
                ),
            )
        } else {
            match scopes[i].parent {
                Option::Some(p) => if 0 <= p < i {
                    chain_assign(scopes, p, name, v)
                } else {
                    Option::None
                },
                Option::None => Option::None,
            }
        }
    } else {
        Option::None
    }
}

/// Assignment only overwrites one node's table: the arena keeps its
/// length, and every node its enclosing handle.
pub proof fn lemma_chain_assign_shape(scopes: Seq<ScopeV>, i: int, name: Seq<char>, v: SpecValue)
    ensures
        chain_assign(scopes, i, name, v) matches Option::Some(scs) ==> scs.len() == scopes.len(),
    decreases i,
{
    if 0 <= i < scopes.len() && !scopes[i].table.contains_key(name) {
        match scopes[i].parent {
            Option::Some(p) => {
                if 0 <= p < i {
                    lemma_chain_assign_shape(scopes, p, name, v);
                }
            },
            Option::None => {},
        }
    }
}

/// Assignment walks the same nodes as lookup, so it finds a binding to
/// overwrite exactly when lookup finds one to read.
pub proof fn lemma_chain_assign_none(scopes: Seq<ScopeV>, i: int, name: Seq<char>, v: SpecValue)
    ensures
        (chain_assign(scopes, i, name, v) is None) <==> (chain_lookup(scopes, i, name) is None),
    decreases i,
{
    if 0 <= i < scopes.len() && !scopes[i].table.contains_key(name) {
        match scopes[i].parent {
            Option::Some(p) => {
                if 0 <= p < i {
                    lemma_chain_assign_none(scopes, p, name, v);
                }
            },
            Option::None => {},
        }
    }
}

impl Environment {
    /// The exec representation is well formed: the view is, and each table
    /// keeps its names unique.
    pub closed spec fn inv(&self) -> bool {
        &&& wf_env(self@)
        &&& forall|i: int| 0 <= i < self.scopes@.len() ==> (#[trigger] self.scopes@[i]).wf()
    }

    /// A well-formed chain has a well-formed view; callers outside this
    /// module read the shape of the arena through this.
    pub proof fn lemma_inv_wf(&self)
        requires
            self.inv(),
        ensures
            wf_env(self@),
    {
    }

    /// A fresh chain holding only the global node.
    pub fn new() -> (e: Environment)
        ensures
            e.inv(),
            e@.scopes.len() == 1,
            e@.cur == 0,
            e@.scopes[0].parent is None,
            e@.scopes[0].table =~= Map::<Seq<char>, SpecValue>::empty(),
    {
        Environment { scopes: vec![Scope { parent: Option::None, table: Vec::new() }], cur: 0 }
    }

    pub fn current(&self) -> (h: usize)
        ensures
            h == self@.cur,
    {
        self.cur
    }

    /// Opens a new node enclosed by the active one and makes it active.
    pub fn new_enclosed(&mut self)
        requires
            old(self).inv(),
        ensures
            final(self).inv(),
            final(self)@.scopes =~= old(self)@.scopes.push(
                ScopeV {
                    parent: Option::Some(old(self)@.cur),
                    table: Map::<Seq<char>, SpecValue>::empty(),
                },
            ),
            final(self)@.cur == old(self)@.scopes.len(),
    {
        let h = self.cur;
        self.scopes.push(Scope { parent: Option::Some(h), table: Vec::new() });
        self.cur = self.scopes.len() - 1;
        proof {
            assert(self@.scopes =~= old(self)@.scopes.push(
                ScopeV {
                    parent: Option::Some(old(self)@.cur),
                    table: Map::<Seq<char>, SpecValue>::empty(),
                },
            ));
        }
    }

    /// Makes an earlier node active again, as on leaving a block.
    pub fn restore(&mut self, h: usize)
        requires
            old(self).inv(),
            h < old(self)@.scopes.len(),
        ensures
            final(self).inv(),
            final(self)@.scopes == old(self)@.scopes,
            final(self)@.cur == h as int,
    {
        self.cur = h;
    }

    /// Binds the name in the active node, overwriting any binding the node
    /// already had for it.
    pub fn define(&mut self, name: String, value: Value)
        requires
            old(self).inv(),
        ensures
            final(self).inv(),
            final(self)@.cur == old(self)@.cur,
            final(self)@.scopes =~= old(self)@.scopes.update(
                old(self)@.cur,
                ScopeV {
                    parent: old(self)@.scopes[old(self)@.cur].parent,
                    table: old(self)@.scopes[old(self)@.cur].table.insert(name@, value@),
                },
            ),
    {
        let h = self.cur;
        proof {
            assert(self.scopes@[h as int].wf());
        }
        let sc = &mut self.scopes[h];
        sc.put(&name, value);
        proof {
            assert(self@.scopes =~= old(self)@.scopes.update(
                old(self)@.cur,
                ScopeV {
                    parent: old(self)@.scopes[old(self)@.cur].parent,
                    table: old(self)@.scopes[old(self)@.cur].table.insert(name@, value@),
                },
            ));
        }
    }

    /// The value the name denotes, walking outward from the active node.
    pub fn get(&self, name: &String) -> (r: Option<Value>)
        requires
            self.inv(),
        ensures
            match r {
                Option::Some(v) => chain_lookup(self@.scopes, self@.cur, name@) == Option::Some(
                    v@,
                ),
                Option::None => chain_lookup(self@.scopes, self@.cur, name@) is None,
            },
    {
        let mut i = self.cur;
        loop
            invariant
                self.inv(),
                i < self@.scopes.len(),
                chain_lookup(self@.scopes, self@.cur, name@) == chain_lookup(
                    self@.scopes,
                    i as int,
                    name@,
                ),
            decreases i,
        {
            match self.scopes[i].lookup(name) {
                Option::Some(v) => {
                    return Option::Some(v);
                },
                Option::None => {
                    match self.scopes[i].parent {
                        Option::Some(p) => {
                            proof {
                                assert(self@.scopes[i as int].parent == Option::Some(p as int));
                            }
                            i = p;
                        },
                        Option::None => {
                            return Option::None;
                        },
                    }
                },
            }
        }
    }

    /// Assigns to the innermost node that already knows the name; reports
    /// whether any did.
    pub fn assign(&mut self, name: &String, value: Value) -> (found: bool)
        requires
            old(self).inv(),
        ensures
            final(self).inv(),
            final(self)@.cur == old(self)@.cur,
            match chain_assign(old(self)@.scopes, old(self)@.cur, name@, value@) {
                Option::Some(scs) => found && final(self)@.scopes =~= scs,
                Option::None => !found && final(self)@.scopes == old(self)@.scopes,
            },
    {
        let mut i = self.cur;
        loop
            invariant
                self.inv(),
                self@ == old(self)@,
                i < self@.scopes.len(),
                chain_assign(self@.scopes, self@.cur, name@, value@) == chain_assign(
                    self@.scopes,
                    i as int,
                    name@,
                    value@,
                ),
            decreases i,
        {
            let hit = {
                let sc = &self.scopes[i];
                match sc.lookup(name) {
                    Option::Some(_) => true,
                    Option::None => false,
                }
            };
            if hit {
                proof {
                    assert(self.scopes@[i as int].wf());
                }
                let sc = &mut self.scopes[i];
                sc.put(name, value);
                proof {
                    assert(self@.scopes =~= old(self)@.scopes.update(
                        i as int,
                        ScopeV {
                            parent: old(self)@.scopes[i as int].parent,
                            table: old(self)@.scopes[i as int].table.insert(name@, value@),
                        },
                    ));
                }
                return true;
            }
            match self.scopes[i].parent {
                Option::Some(p) => {
                    proof {
                        assert(self@.scopes[i as int].parent == Option::Some(p as int));
                    }
                    i = p;
                },
                Option::None => {
                    return false;
                },
            }
        }
    }
}

} // verus!
