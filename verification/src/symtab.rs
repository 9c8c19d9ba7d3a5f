//! The names that each scope declares, and how a name is found from the
//! innermost scope outwards.

use vstd::prelude::*;
use vstd::string::*;

verus! {

/// The slot of the latest declaration of `name` in one scope, if the scope
/// declares it.
pub open spec fn latest(names: Seq<Seq<char>>, name: Seq<char>) -> Option<nat>
    decreases names.len(),
{
    if names.len() == 0 {
        None
    } else if names.last() == name {
        Some((names.len() - 1) as nat)
    } else {
        latest(names.drop_last(), name)
    }
}

/// Where `name` is found from the innermost of `scopes`, which are listed
/// from the global scope inwards: the slot in the nearest scope that
/// declares it, and the number of scopes between that one and the
/// innermost.
pub open spec fn resolve(scopes: Seq<Seq<Seq<char>>>, name: Seq<char>) -> Option<(nat, nat)>
    decreases scopes.len(),
{
    if scopes.len() == 0 {
        None
    } else {
        match latest(scopes.last(), name) {
            Some(slot) => Some((slot, 0nat)),
            None => match resolve(scopes.drop_last(), name) {
                Some((slot, distance)) => Some((slot, distance + 1)),
                None => None,
            },
        }
    }
}

/// `scopes` with `name` declared in the innermost one.
pub open spec fn declare(scopes: Seq<Seq<Seq<char>>>, name: Seq<char>) -> Seq<Seq<Seq<char>>> {
    scopes.update(scopes.len() - 1, scopes.last().push(name))
}

/// `scopes` without the innermost one. The global scope always stays.
pub open spec fn outer(scopes: Seq<Seq<Seq<char>>>) -> Seq<Seq<Seq<char>>> {
    if scopes.len() > 1 {
        scopes.drop_last()
    } else {
        scopes
    }
}

/// What `latest` finds is a slot that holds the name, and no later slot
/// holds it; it finds nothing only where no slot holds the name.
pub proof fn lemma_latest(names: Seq<Seq<char>>, name: Seq<char>)
    ensures
        match latest(names, name) {
            Some(slot) => {
                &&& slot < names.len()
                &&& names[slot as int] == name
                &&& forall|i: int| slot < i < names.len() ==> names[i] != name
            },
            None => !names.contains(name),
        },
    decreases names.len(),
{
    if names.len() > 0 && names.last() != name {
        lemma_latest(names.drop_last(), name);
        if latest(names, name) is None {
            assert forall|i: int| 0 <= i < names.len() implies names[i] != name by {
                if i < names.len() - 1 {
                    assert(names.drop_last()[i] == names[i]);
                    assert(names.drop_last().contains(names[i]));
                }
            }
        } else {
            let slot = latest(names, name)->Some_0;
            assert(names.drop_last()[slot as int] == names[slot as int]);
            assert forall|i: int| slot < i < names.len() implies names[i] != name by {
                if i < names.len() - 1 {
                    assert(names.drop_last()[i] == names[i]);
                }
            }
        }
    }
}

/// A name that is declared in a scope at some depth, and in no scope
/// further in, is found from a scope `k` levels further in at distance
/// exactly `k`, in the slot that it was given when it was declared.
/// `outer` are the scopes around the declaring one, `before` the names the
/// declaring scope held at the time, `after` those it was given later, and
/// `inner` the `k` scopes further in.
pub proof fn lemma_scope_distance(
    outer: Seq<Seq<Seq<char>>>,
    before: Seq<Seq<char>>,
    name: Seq<char>,
    after: Seq<Seq<char>>,
    inner: Seq<Seq<Seq<char>>>,
)
    requires
        !after.contains(name),
        forall|j: int| 0 <= j < inner.len() ==> !(#[trigger] inner[j]).contains(name),
    ensures
        resolve(outer.push(before.push(name) + after) + inner, name) == Some(
            (before.len(), inner.len()),
        ),
    decreases inner.len(),
{
    let declaring = before.push(name) + after;
    let scopes = outer.push(declaring) + inner;
    if inner.len() == 0 {
        assert(scopes.last() == declaring);
        lemma_latest(declaring, name);
        assert(declaring[before.len() as int] == name);
        match latest(declaring, name) {
            Some(slot) => {
                if slot > before.len() {
                    assert(declaring[slot as int] == after[slot - before.len() - 1]);
                    assert(after.contains(name));
                }
            },
            None => {
                assert(declaring.contains(name));
            },
        }
    } else {
        assert(scopes.last() == inner.last());
        lemma_latest(inner.last(), name);
        assert(scopes.drop_last() =~= outer.push(declaring) + inner.drop_last());
        assert forall|j: int| 0 <= j < inner.drop_last().len() implies !(
        #[trigger] inner.drop_last()[j]).contains(name) by {
            assert(inner.drop_last()[j] == inner[j]);
        }
        lemma_scope_distance(outer, before, name, after, inner.drop_last());
    }
}

/// A name that no scope of a chain declares is not found from its
/// innermost scope: a scope sees only the names of the scopes around it.
pub proof fn lemma_unrelated_scope(scopes: Seq<Seq<Seq<char>>>, name: Seq<char>)
    requires
        forall|j: int| 0 <= j < scopes.len() ==> !(#[trigger] scopes[j]).contains(name),
    ensures
        resolve(scopes, name) is None,
    decreases scopes.len(),
{
    if scopes.len() > 0 {
        lemma_latest(scopes.last(), name);
        assert forall|j: int| 0 <= j < scopes.drop_last().len() implies !(
        #[trigger] scopes.drop_last()[j]).contains(name) by {
            assert(scopes.drop_last()[j] == scopes[j]);
        }
        lemma_unrelated_scope(scopes.drop_last(), name);
    }
}

/// The names of a list of strings, element by element.
pub open spec fn names_of(names: Seq<String>) -> Seq<Seq<char>> {
    Seq::new(names.len(), |i: int| names[i]@)
}

/// Finds the latest declaration of a name in one scope.
fn find_latest(scope: &Vec<String>, wanted: &String) -> (found: Option<usize>)
    ensures
        match latest(names_of(scope@), wanted@) {
            Some(slot) => found is Some && found->Some_0 == slot,
            None => found is None,
        },
{
    let mut slot: usize = scope.len();
    assert(names_of(scope@).take(slot as int) =~= names_of(scope@));
    while slot > 0
        invariant
            slot <= scope@.len(),
            latest(names_of(scope@), wanted@) == latest(
                names_of(scope@).take(slot as int),
                wanted@,
            ),
        decreases slot,
    {
        slot -= 1;
        let ghost prefix = names_of(scope@).take(slot + 1);
        assert(prefix.last() == scope@[slot as int]@);
        assert(prefix.drop_last() =~= names_of(scope@).take(slot as int));
        if scope[slot] == *wanted {
            return Some(slot);
        }
    }
    assert(names_of(scope@).take(0) =~= Seq::<Seq<char>>::empty());
    None
}

/// The symbol table: the names of each scope in the order of their
/// declaration, from the global scope to the innermost one.
pub struct SymTab {
    scopes: Vec<Vec<String>>,
}

impl View for SymTab {
    type V = Seq<Seq<Seq<char>>>;

    closed spec fn view(&self) -> Seq<Seq<Seq<char>>> {
        Seq::new(self.scopes@.len(), |i: int| names_of(self.scopes@[i]@))
    }
}

impl SymTab {
    #[verifier::type_invariant]
    spec fn inv(&self) -> bool {
        self.scopes@.len() > 0
    }

    /// A table with an empty global scope and nothing else.
    pub fn global() -> (table: SymTab)
        ensures
            table@ == seq![Seq::<Seq<char>>::empty()],
    {
        let mut scopes: Vec<Vec<String>> = Vec::new();
        scopes.push(Vec::new());
        let table = SymTab { scopes };
        assert(table@ =~= seq![Seq::<Seq<char>>::empty()]) by {
            assert(names_of(table.scopes@[0]@) =~= Seq::<Seq<char>>::empty());
        }
        table
    }

    /// The table of a scope inside the innermost scope of `parent`, which
    /// starts out with the given names.
    pub fn new(parent: SymTab, names: Vec<String>) -> (table: SymTab)
        ensures
            table@ == parent@.push(names_of(names@)),
    {
        proof {
            use_type_invariant(&parent);
        }
        let mut scopes = parent.scopes;
        scopes.push(names);
        let table = SymTab { scopes };
        assert(table@ =~= parent@.push(names_of(names@)));
        table
    }

    /// Leaves the innermost scope: the table of the scope around it, or
    /// nothing at the global scope.
    pub fn parent(self) -> (table: Option<SymTab>)
        ensures
            self@.len() == 1 ==> table is None,
            self@.len() > 1 ==> table is Some && table->Some_0@ == self@.drop_last(),
    {
        proof {
            use_type_invariant(&self);
        }
        let mut scopes = self.scopes;
        if scopes.len() == 1 {
            None
        } else {
            scopes.pop();
            let table = SymTab { scopes };
            assert(table@ =~= self@.drop_last());
            Some(table)
        }
    }

    /// Enters a scope inside the innermost one, which starts out with the
    /// given names.
    pub fn enter(&mut self, names: Vec<String>)
        ensures
            final(self)@ == old(self)@.push(names_of(names@)),
    {
        let mut table = SymTab::global();
        std::mem::swap(self, &mut table);
        let mut entered = SymTab::new(table, names);
        std::mem::swap(self, &mut entered);
    }

    /// Leaves the innermost scope and forgets its names. The global scope
    /// is never left.
    pub fn leave(&mut self)
        ensures
            old(self)@.len() > 0,
            final(self)@ == outer(old(self)@),
    {
        if self.depth() > 1 {
            let mut table = SymTab::global();
            std::mem::swap(self, &mut table);
            match table.parent() {
                Some(mut outer) => {
                    std::mem::swap(self, &mut outer);
                },
                None => {},
            }
        }
    }

    /// The number of scopes, the global one included.
    pub fn depth(&self) -> (depth: usize)
        ensures
            depth == self@.len(),
            depth > 0,
    {
        proof {
            use_type_invariant(self);
        }
        self.scopes.len()
    }

    /// The number of names that the innermost scope declares.
    pub fn size(&self) -> (size: usize)
        ensures
            self@.len() > 0,
            size == self@.last().len(),
    {
        proof {
            use_type_invariant(self);
        }
        self.scopes[self.scopes.len() - 1].len()
    }

    /// Finds a name from the innermost scope outwards: the slot of its
    /// latest declaration in the nearest scope that declares it, and the
    /// number of scopes between that scope and the innermost one.
    pub fn get_name(&self, name: &str) -> (found: Option<(usize, usize)>)
        ensures
            match resolve(self@, name@) {
                Some((slot, distance)) => found is Some && found->Some_0.0 == slot
                    && found->Some_0.1 == distance,
                None => found is None,
            },
    {
        proof {
            use_type_invariant(self);
        }
        let wanted = String::from_str(name);
        let depth = self.scopes.len();
        let mut distance: usize = 0;
        assert(self@.take(depth as int) =~= self@);
        while distance < depth
            invariant
                wanted@ == name@,
                depth == self.scopes@.len(),
                distance <= depth,
                resolve(self@, name@) == match resolve(self@.take(depth - distance), name@) {
                    Some((slot, d)) => Some((slot, (d + distance) as nat)),
                    None => None,
                },
            decreases depth - distance,
        {
            let scope = &self.scopes[depth - 1 - distance];
            let ghost visible = self@.take(depth - distance);
            assert(visible.last() == names_of(scope@));
            assert(visible.drop_last() =~= self@.take(depth - distance - 1));
            match find_latest(scope, &wanted) {
                Some(slot) => {
                    return Some((slot, distance));
                },
                None => {},
            }
            distance += 1;
        }
        assert(self@.take(0) =~= Seq::<Seq<Seq<char>>>::empty());
        None
    }

    /// Declares a name in the innermost scope and returns its slot. A name
    /// that the scope already holds is declared again and hides the
    /// earlier declaration.
    pub fn add_name(&mut self, name: &str) -> (slot: usize)
        ensures
            old(self)@.len() > 0,
            final(self)@ == declare(old(self)@, name@),
            slot == old(self)@.last().len(),
    {
        proof {
            use_type_invariant(&*self);
        }
        let last = self.scopes.len() - 1;
        let slot = self.scopes[last].len();
        self.scopes[last].push(String::from_str(name));
        assert(self@ =~= declare(old(self)@, name@)) by {
            assert(names_of(self.scopes@[last as int]@) =~= names_of(
                old(self).scopes@[last as int]@,
            ).push(name@));
        }
        slot
    }
}

} // verus!
