//! The types that go with the slots of each scope, and the type names
//! that each scope gives a meaning to.

use vstd::prelude::*;
use vstd::string::*;
use crate::diagnostic::{decimal, decimal_text, Fault, FaultModel};
use crate::types::{models, NodeModel, Type, TypeMode, TypeModel};

verus! {

/// Mathematical value of one scope of the type table: the types of its
/// slots, and its aliases.
pub struct ScopeModel {
    pub types: Seq<TypeModel>,
    pub aliases: Map<Seq<char>, TypeModel>,
}

/// The placeholder that a new slot holds until a type is assigned to it.
pub open spec fn placeholder() -> TypeModel {
    TypeModel { node: NodeModel::Nil, mode: TypeMode::Regular }
}

/// The map that a list of bindings stands for: a later binding of a name
/// replaces an earlier one.
pub open spec fn bindings(list: Seq<(String, Type)>) -> Map<Seq<char>, TypeModel>
    decreases list.len(),
{
    if list.len() == 0 {
        Map::empty()
    } else {
        bindings(list.drop_last()).insert(list.last().0@, list.last().1@)
    }
}

/// The scope that is `distance` scopes out from the innermost of `scopes`,
/// which are listed from the global scope inwards.
pub open spec fn scope_at(scopes: Seq<ScopeModel>, distance: nat) -> int {
    scopes.len() - 1 - distance
}

/// The scope that an alias at `distance` belongs to: the scope that far
/// out, or the global scope where the chain is shorter than that.
pub open spec fn alias_scope(scopes: Seq<ScopeModel>, distance: nat) -> int {
    if distance < scopes.len() {
        scopes.len() - 1 - distance
    } else {
        0
    }
}

/// The type of slot `index` in the scope `distance` scopes out.
pub open spec fn type_at(scopes: Seq<ScopeModel>, index: nat, distance: nat) -> Result<
    TypeModel,
    FaultModel,
> {
    if distance < scopes.len() && index < scopes[scope_at(scopes, distance)].types.len() {
        Ok(scopes[scope_at(scopes, distance)].types[index as int])
    } else {
        Err(FaultModel::InvalidTypeIndex(index as usize))
    }
}

/// The table after `t` is assigned to slot `index` in the scope `distance`
/// scopes out. Where the chain ends first, the fault tells by how many
/// links; where the scope has no such slot, it tells the index.
pub open spec fn assign(scopes: Seq<ScopeModel>, index: nat, distance: nat, t: TypeModel) -> Result<
    Seq<ScopeModel>,
    FaultModel,
> {
    if distance >= scopes.len() {
        Err(FaultModel::InvalidScope((distance - (scopes.len() - 1)) as usize))
    } else {
        let at = scope_at(scopes, distance);
        if index >= scopes[at].types.len() {
            Err(FaultModel::InvalidTypeIndex(index as usize))
        } else {
            Ok(
                scopes.update(
                    at,
                    ScopeModel {
                        types: scopes[at].types.update(index as int, t),
                        aliases: scopes[at].aliases,
                    },
                ),
            )
        }
    }
}

/// The table after the innermost scope has grown by one slot.
pub open spec fn grown(scopes: Seq<ScopeModel>) -> Seq<ScopeModel> {
    scopes.update(
        scopes.len() - 1,
        ScopeModel {
            types: scopes.last().types.push(placeholder()),
            aliases: scopes.last().aliases,
        },
    )
}

/// The table after `name` is bound to `t` in the scope that an alias at
/// `distance` belongs to.
pub open spec fn bound(scopes: Seq<ScopeModel>, distance: nat, name: Seq<char>, t: TypeModel) -> Seq<
    ScopeModel,
> {
    let at = alias_scope(scopes, distance);
    scopes.update(
        at,
        ScopeModel { types: scopes[at].types, aliases: scopes[at].aliases.insert(name, t) },
    )
}

/// The type that `name` is bound to in the scope that an alias at
/// `distance` belongs to.
pub open spec fn alias_at(scopes: Seq<ScopeModel>, name: Seq<char>, distance: nat) -> Result<
    TypeModel,
    FaultModel,
> {
    let at = alias_scope(scopes, distance);
    if scopes[at].aliases.contains_key(name) {
        Ok(scopes[at].aliases[name])
    } else {
        Err(FaultModel::InvalidAlias(name))
    }
}

/// The first `n` slots of a scope written out, one to a line: the slot,
/// the label of the scope, and the type.
pub open spec fn slot_lines(types: Seq<TypeModel>, label: nat, n: nat) -> Seq<char>
    decreases n,
{
    if n == 0 || n > types.len() {
        Seq::empty()
    } else {
        slot_lines(types, label, (n - 1) as nat) + "("@ + decimal_text((n - 1) as nat) + " : "@
            + decimal_text(label) + ") = "@ + types[n - 1].text() + "\n"@
    }
}

/// The scope `at` written out under the label `label`, behind the scopes
/// around it, as far as the label reaches: each scope further out has a
/// label one less, and a rule stands between two scopes.
pub open spec fn dump_text(scopes: Seq<ScopeModel>, at: int, label: nat) -> Seq<char>
    decreases label,
{
    if at < 0 || at >= scopes.len() {
        Seq::empty()
    } else if label > 0 && at > 0 {
        dump_text(scopes, at - 1, (label - 1) as nat) + "------------------------------\n"@
            + slot_lines(scopes[at].types, label, scopes[at].types.len())
    } else {
        slot_lines(scopes[at].types, label, scopes[at].types.len())
    }
}

/// One scope of the type table.
struct Scope {
    types: Vec<Type>,
    aliases: Vec<(String, Type)>,
}

impl View for Scope {
    type V = ScopeModel;

    closed spec fn view(&self) -> ScopeModel {
        ScopeModel { types: models(self.types@), aliases: bindings(self.aliases@) }
    }
}

/// Finds the latest binding of a name in a list of bindings.
fn find_binding(list: &Vec<(String, Type)>, wanted: &String) -> (found: Option<usize>)
    ensures
        found is Some <==> bindings(list@).contains_key(wanted@),
        found matches Some(i) ==> i < list@.len() && list@[i as int].1@ == bindings(list@)[wanted@],
{
    let mut i: usize = list.len();
    assert(list@.take(i as int) =~= list@);
    while i > 0
        invariant
            i <= list@.len(),
            bindings(list@).contains_key(wanted@) <==> bindings(list@.take(i as int)).contains_key(
                wanted@,
            ),
            bindings(list@).contains_key(wanted@) ==> bindings(list@)[wanted@] == bindings(
                list@.take(i as int),
            )[wanted@],
        decreases i,
    {
        i -= 1;
        let ghost prefix = list@.take(i + 1);
        assert(prefix.last() == list@[i as int]);
        assert(prefix.drop_last() =~= list@.take(i as int));
        if list[i].0 == *wanted {
            return Some(i);
        }
    }
    assert(list@.take(0) =~= Seq::<(String, Type)>::empty());
    None
}

/// The type table: for each scope, from the global one to the innermost
/// one, the types of its slots and its aliases.
pub struct TypeTab {
    scopes: Vec<Scope>,
}

impl View for TypeTab {
    type V = Seq<ScopeModel>;

    closed spec fn view(&self) -> Seq<ScopeModel> {
        Seq::new(self.scopes@.len(), |i: int| self.scopes@[i]@)
    }
}

impl TypeTab {
    #[verifier::type_invariant]
    spec fn inv(&self) -> bool {
        self.scopes@.len() > 0
    }

    /// The table of a scope inside the innermost scope of `parent`, which
    /// starts out with the given types and bindings. Of two bindings of one
    /// name the later one counts.
    pub fn new(parent: TypeTab, types: Vec<Type>, aliases: Vec<(String, Type)>) -> (table: TypeTab)
        ensures
            table@ == parent@.push(
                ScopeModel { types: models(types@), aliases: bindings(aliases@) },
            ),
    {
        proof {
            use_type_invariant(&parent);
        }
        let mut scopes = parent.scopes;
        scopes.push(Scope { types, aliases });
        let table = TypeTab { scopes };
        assert(table@ =~= parent@.push(
            ScopeModel { types: models(types@), aliases: bindings(aliases@) },
        ));
        table
    }

    /// A table with an empty global scope and nothing else.
    pub fn global() -> (table: TypeTab)
        ensures
            table@ == seq![
                ScopeModel { types: Seq::<TypeModel>::empty(), aliases: Map::empty() },
            ],
    {
        let mut scopes: Vec<Scope> = Vec::new();
        scopes.push(Scope { types: Vec::new(), aliases: Vec::new() });
        let table = TypeTab { scopes };
        assert(table@ =~= seq![
            ScopeModel { types: Seq::<TypeModel>::empty(), aliases: Map::empty() },
        ]) by {
            assert(table.scopes@[0]@.types =~= Seq::<TypeModel>::empty());
        }
        table
    }

    /// Leaves the innermost scope: the table of the scope around it, or
    /// nothing at the global scope.
    pub fn parent(self) -> (table: Option<TypeTab>)
        ensures
            self@.len() == 1 ==> table is None,
            self@.len() > 1 ==> table is Some && table->Some_0@ == self@.drop_last(),
    {
        proof {
            use_type_invariant(&self);
        }
        let mut scopes = self.scopes;
        if scopes.len() == 1 {
            None
        } else {
            scopes.pop();
            let table = TypeTab { scopes };
            assert(table@ =~= self@.drop_last());
            Some(table)
        }
    }

    /// The number of scopes, the global one included.
    pub fn depth(&self) -> (depth: usize)
        ensures
            depth == self@.len(),
            depth > 0,
    {
        proof {
            use_type_invariant(self);
        }
        self.scopes.len()
    }

    /// Assigns a type to slot `index` of the scope `env_index` scopes out
    /// from the innermost one. On a fault the table is unchanged.
    pub fn set_type(&mut self, index: usize, env_index: usize, t: Type) -> (result: Result<
        (),
        Fault,
    >)
        ensures
            match assign(old(self)@, index as nat, env_index as nat, t@) {
                Ok(scopes) => result is Ok && final(self)@ == scopes,
                Err(fault) => result is Err && result->Err_0@ == fault && final(self)@ == old(
                    self,
                )@,
            },
    {
        proof {
            use_type_invariant(&*self);
        }
        let depth = self.scopes.len();
        if env_index >= depth {
            return Err(Fault::InvalidScope(env_index - (depth - 1)));
        }
        let at = depth - 1 - env_index;
        if index >= self.scopes[at].types.len() {
            return Err(Fault::InvalidTypeIndex(index));
        }
        self.scopes[at].types.set(index, t);
        assert(self@ =~= assign(old(self)@, index as nat, env_index as nat, t@)->Ok_0) by {
            assert(self.scopes@[at as int]@.types =~= old(self).scopes@[at as int]@.types.update(
                index as int,
                t@,
            ));
        }
        Ok(())
    }

    /// The type of slot `index` of the scope `env_index` scopes out from
    /// the innermost one.
    pub fn get_type(&self, index: usize, env_index: usize) -> (result: Result<Type, Fault>)
        ensures
            match type_at(self@, index as nat, env_index as nat) {
                Ok(t) => result is Ok && result->Ok_0@ == t,
                Err(fault) => result is Err && result->Err_0@ == fault,
            },
    {
        proof {
            use_type_invariant(self);
        }
        let depth = self.scopes.len();
        if env_index >= depth {
            return Err(Fault::InvalidTypeIndex(index));
        }
        let scope = &self.scopes[depth - 1 - env_index];
        if index >= scope.types.len() {
            return Err(Fault::InvalidTypeIndex(index));
        }
        Ok(scope.types[index].clone())
    }

    /// Binds a type name in the scope `env_index` scopes out from the
    /// innermost one, or in the global scope where the chain is shorter
    /// than that. It always succeeds.
    pub fn set_alias(&mut self, env_index: usize, name: &str, t: Type) -> (result: Result<
        (),
        Fault,
    >)
        ensures
            result is Ok,
            final(self)@ == bound(old(self)@, env_index as nat, name@, t@),
    {
        proof {
            use_type_invariant(&*self);
        }
        let depth = self.scopes.len();
        let at = if env_index < depth {
            depth - 1 - env_index
        } else {
            0
        };
        self.scopes[at].aliases.push((String::from_str(name), t));
        assert(self@ =~= bound(old(self)@, env_index as nat, name@, t@)) by {
            assert(self.scopes@[at as int].aliases@.drop_last() =~= old(self).scopes@[at as int].aliases@);
        }
        Ok(())
    }

    /// The type that a name is bound to in the scope `env_index` scopes
    /// out from the innermost one, or in the global scope where the chain
    /// is shorter than that.
    pub fn get_alias(&self, name: &str, env_index: usize) -> (result: Result<Type, Fault>)
        ensures
            match alias_at(self@, name@, env_index as nat) {
                Ok(t) => result is Ok && result->Ok_0@ == t,
                Err(fault) => result is Err && result->Err_0@ == fault,
            },
    {
        proof {
            use_type_invariant(self);
        }
        let depth = self.scopes.len();
        let at = if env_index < depth {
            depth - 1 - env_index
        } else {
            0
        };
        let wanted = String::from_str(name);
        let scope = &self.scopes[at];
        match find_binding(&scope.aliases, &wanted) {
            Some(i) => Ok(scope.aliases[i].1.clone()),
            None => Err(Fault::InvalidAlias(wanted)),
        }
    }

    /// Writes the scope `at` out under the label `label`, behind the
    /// scopes around it.
    fn dump_scope(&self, at: usize, label: usize) -> (text: String)
        requires
            at < self@.len(),
        ensures
            text@ == dump_text(self@, at as int, label as nat),
        decreases label,
    {
        let mut text = if label > 0 && at > 0 {
            let mut outer = self.dump_scope(at - 1, label - 1);
            outer.append("------------------------------\n");
            outer
        } else {
            String::new()
        };
        let types = &self.scopes[at].types;
        let ghost before = text@;
        let ghost shown = self@[at as int].types;
        let mut i: usize = 0;
        while i < types.len()
            invariant
                i <= types.len(),
                shown == models(types@),
                text@ == before + slot_lines(shown, label as nat, i as nat),
            decreases types.len() - i,
        {
            let slot = decimal(i);
            let scope = decimal(label);
            let written = types[i].to_string();
            let ghost earlier = text@;
            text.append("(");
            text.append(slot.as_str());
            text.append(" : ");
            text.append(scope.as_str());
            text.append(") = ");
            text.append(written.as_str());
            text.append("\n");
            i += 1;
            assert(text@ =~= before + slot_lines(shown, label as nat, i as nat));
        }
        assert(before + slot_lines(shown, label as nat, shown.len()) =~= dump_text(
            self@,
            at as int,
            label as nat,
        ));
        text
    }

    /// Writes the slots of the innermost scope out under the label
    /// `env_index`, behind those of so many scopes around it, each under
    /// a label one less.
    pub fn dump(&self, env_index: usize) -> (text: String)
        ensures
            text@ == dump_text(self@, self@.len() - 1, env_index as nat),
    {
        proof {
            use_type_invariant(self);
        }
        self.dump_scope(self.scopes.len() - 1, env_index)
    }

    /// The number of slots of the innermost scope.
    pub fn size(&self) -> (size: usize)
        ensures
            self@.len() > 0,
            size == self@.last().types.len(),
    {
        proof {
            use_type_invariant(self);
        }
        self.scopes[self.scopes.len() - 1].types.len()
    }

    /// Gives the innermost scope one more slot, which holds the
    /// placeholder type.
    pub fn grow(&mut self)
        ensures
            old(self)@.len() > 0,
            final(self)@ == grown(old(self)@),
    {
        proof {
            use_type_invariant(&*self);
        }
        let last = self.scopes.len() - 1;
        self.scopes[last].types.push(Type::nil());
        assert(self@ =~= grown(old(self)@)) by {
            assert(self.scopes@[last as int]@.types =~= old(self).scopes@[last as int]@.types.push(
                placeholder(),
            ));
        }
    }
}

} // verus!
