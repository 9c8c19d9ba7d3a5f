//! The semantic checker: one pass over the syntax tree that resolves
//! names, records the type of each declaration and compares declared
//! types with the types of initializers.

use vstd::prelude::*;
use crate::ast::{
    expression_models, lemma_expression_view, lemma_statement_view, statement_models, Expression, ExpressionModel, ExpressionNode, ExpressionNodeModel, Statement,
    StatementModel, StatementNode, StatementNodeModel,
};
use crate::diagnostic::{Diagnostic, DiagnosticModel, Fault, FaultModel};
use crate::source::Source;
use crate::symtab::{declare, latest, resolve, SymTab};
use crate::token::Position;
use crate::types::{NodeModel, Type, TypeMode, TypeModel, TypeNode};
use crate::typetab::{assign, grown, type_at, ScopeModel, TypeTab};

verus! {

/// The two scope tables side by side: for each scope, from the global one
/// inwards, its names and its types.
pub struct Tables {
    pub names: Seq<Seq<Seq<char>>>,
    pub types: Seq<ScopeModel>,
}

/// What checking leaves behind: the tables as they are afterwards, and
/// the first fault with its position, if there was one.
pub struct Checked {
    pub tables: Tables,
    pub fault: Option<(FaultModel, Option<Position>)>,
}

/// Checking went through.
pub open spec fn pass(tables: Tables) -> Checked {
    Checked { tables, fault: None }
}

/// Checking stopped at a fault.
pub open spec fn fail(tables: Tables, fault: FaultModel, position: Option<Position>) -> Checked {
    Checked { tables, fault: Some((fault, position)) }
}

/// A type of the given shape, declared regularly.
pub open spec fn regular(node: NodeModel) -> TypeModel {
    TypeModel { node, mode: TypeMode::Regular }
}

/// The type of an expression, read off its form alone: a name has the
/// type of its slot, a literal has the type of its kind, a number is a
/// `Number` until something narrows it, and every other form has no type
/// yet.
pub open spec fn type_of(tables: Tables, expression: ExpressionModel) -> Result<
    TypeModel,
    (FaultModel, Option<Position>),
> {
    match expression.node {
        ExpressionNodeModel::Identifier(name) => match resolve(tables.names, name) {
            Some((slot, distance)) => match type_at(tables.types, slot, distance) {
                Ok(t) => Ok(t),
                Err(fault) => Err((fault, None)),
            },
            None => Err((FaultModel::Undeclared(name), Some(expression.pos))),
        },
        ExpressionNodeModel::Str(_) => Ok(regular(NodeModel::Str)),
        ExpressionNodeModel::Char(_) => Ok(regular(NodeModel::Char)),
        ExpressionNodeModel::Bool(_) => Ok(regular(NodeModel::Bool)),
        ExpressionNodeModel::Number(_) => Ok(regular(NodeModel::Number)),
        _ => Ok(regular(NodeModel::Nil)),
    }
}

/// The tables after slot `index` of the innermost scope is given a type.
pub open spec fn store(tables: Tables, index: nat, t: TypeModel) -> Checked {
    match assign(tables.types, index, 0, t) {
        Ok(types) => pass(Tables { names: tables.names, types }),
        Err(fault) => fail(tables, fault, None),
    }
}

/// The slot that a declaration of `name` uses: the slot it resolves to,
/// in whatever scope, or else the next free slot of the innermost scope.
pub open spec fn slot_for(tables: Tables, name: Seq<char>) -> nat {
    match resolve(tables.names, name) {
        Some((slot, _)) => slot,
        None => tables.names.last().len(),
    }
}

/// The tables after room is made for a declaration of `name`: the name is
/// declared in the innermost scope unless it resolves already, and the
/// innermost scope of the type table grows by one slot either way.
pub open spec fn reserve(tables: Tables, name: Seq<char>) -> Tables {
    Tables {
        names: if resolve(tables.names, name) is None {
            declare(tables.names, name)
        } else {
            tables.names
        },
        types: grown(tables.types),
    }
}

/// The end of a declaration with an initializer, once the initializer has
/// been checked: the initializer's type is read off; a declared type must
/// agree with it and is then the one recorded, its mode included; without
/// a declared type the initializer's type is recorded.
pub open spec fn conclude(
    checked: Checked,
    index: nat,
    declared: TypeModel,
    initializer: ExpressionModel,
) -> Checked {
    if checked.fault is Some {
        checked
    } else {
        match type_of(checked.tables, initializer) {
            Err((fault, position)) => fail(checked.tables, fault, position),
            Ok(found) => if declared.node is Nil {
                store(checked.tables, index, found)
            } else if declared.agrees(found) {
                store(checked.tables, index, declared)
            } else {
                fail(
                    checked.tables,
                    FaultModel::Mismatched(declared.node, found),
                    Some(initializer.pos),
                )
            },
        }
    }
}

/// The tables after the names of a tuple target, from the one at `from`
/// on, are declared in the innermost scope, each with a slot that holds
/// the placeholder type. An element that is not a name is a fault.
pub open spec fn register(tables: Tables, targets: Seq<ExpressionModel>, from: nat) -> Checked
    decreases targets.len() - from,
{
    if from >= targets.len() {
        pass(tables)
    } else {
        match targets[from as int].node {
            ExpressionNodeModel::Identifier(name) => register(
                Tables { names: declare(tables.names, name), types: grown(tables.types) },
                targets,
                from + 1,
            ),
            _ => fail(tables, FaultModel::NonIdentifier, Some(targets[from as int].pos)),
        }
    }
}

/// What checking one expression does. A name must resolve; the elements
/// of a tuple and the statements of a block are checked in order, in the
/// scope they stand in; every other form passes unexamined.
pub open spec fn check_expression(tables: Tables, expression: ExpressionModel) -> Checked
    decreases expression, 0nat,
{
    match expression.node {
        ExpressionNodeModel::Identifier(name) => if resolve(tables.names, name) is None {
            fail(tables, FaultModel::Undeclared(name), Some(expression.pos))
        } else {
            pass(tables)
        },
        ExpressionNodeModel::Tuple(content) => check_expressions(tables, content, 0),
        ExpressionNodeModel::Block(statements) => check_statements(tables, statements, 0),
        _ => pass(tables),
    }
}

/// What checking the expressions from `from` on does: each in turn, up to
/// the first fault.
pub open spec fn check_expressions(
    tables: Tables,
    expressions: Seq<ExpressionModel>,
    from: nat,
) -> Checked
    decreases expressions, expressions.len() - from,
{
    if from >= expressions.len() {
        pass(tables)
    } else {
        let first = check_expression(tables, expressions[from as int]);
        if first.fault is Some {
            first
        } else {
            check_expressions(first.tables, expressions, from + 1)
        }
    }
}

/// What checking one statement does.
pub open spec fn check_statement(tables: Tables, statement: StatementModel) -> Checked
    decreases statement, 1nat,
{
    check_node(tables, statement.node)
}

/// What checking a statement of the given form does. An expression is
/// checked as such. A declaration with a name on its left makes room for
/// the name, checks the initializer if there is one, and records a type; a
/// declaration with a tuple on its left declares each name of the tuple;
/// any other left side is a fault.
pub open spec fn check_node(tables: Tables, node: StatementNodeModel) -> Checked
    decreases node, 0nat,
{
    match node {
        StatementNodeModel::Expression(expression) => check_expression(tables, expression),
        StatementNodeModel::Variable(declared, left, right) => match left.node {
            ExpressionNodeModel::Identifier(name) => match right {
                Some(initializer) => conclude(
                    check_expression(reserve(tables, name), initializer),
                    slot_for(tables, name),
                    declared,
                    initializer,
                ),
                None => store(reserve(tables, name), slot_for(tables, name), declared),
            },
            ExpressionNodeModel::Tuple(targets) => register(tables, targets, 0),
            _ => fail(tables, FaultModel::UnexpectedVariable, Some(left.pos)),
        },
        StatementNodeModel::Constant(declared, left, right) => match left.node {
            ExpressionNodeModel::Identifier(name) => conclude(
                check_expression(reserve(tables, name), right),
                slot_for(tables, name),
                declared,
                right,
            ),
            ExpressionNodeModel::Tuple(targets) => register(tables, targets, 0),
            _ => fail(tables, FaultModel::UnexpectedConstant, Some(left.pos)),
        },
    }
}

/// What checking the statements from `from` on does: each in turn, up to
/// the first fault.
pub open spec fn check_statements(tables: Tables, statements: Seq<StatementModel>, from: nat) -> Checked
    decreases statements, statements.len() - from,
{
    if from >= statements.len() {
        pass(tables)
    } else {
        let first = check_statement(tables, statements[from as int]);
        if first.fault is Some {
            first
        } else {
            check_statements(first.tables, statements, from + 1)
        }
    }
}

/// The type table keeps pace with the symbol table: both have the same
/// scopes, at least the global one, and each scope has a slot in the type
/// table for every name it declares.
pub open spec fn paired(tables: Tables) -> bool {
    &&& tables.names.len() > 0
    &&& tables.names.len() == tables.types.len()
    &&& forall|d: int|
        0 <= d < tables.names.len() ==> (#[trigger] tables.names[d]).len()
            <= tables.types[d].types.len()
}

/// `after` has grown out of `before`: the scopes are the same in number,
/// each scope still holds the names it held, in the slots they had, and
/// has no fewer types, and the aliases are untouched.
pub open spec fn extends(before: Tables, after: Tables) -> bool {
    &&& after.names.len() == before.names.len()
    &&& after.types.len() == before.types.len()
    &&& forall|d: int|
        0 <= d < before.names.len() ==> (#[trigger] before.names[d]).is_prefix_of(after.names[d])
    &&& forall|d: int|
        0 <= d < before.types.len() ==> {
            &&& (#[trigger] before.types[d]).types.len() <= after.types[d].types.len()
            &&& before.types[d].aliases == after.types[d].aliases
        }
}

/// A fault of the tables themselves rather than of the program.
pub open spec fn table_fault(checked: Checked) -> bool {
    checked.fault matches Some((fault, _)) && (fault is InvalidTypeIndex || fault is InvalidScope)
}

/// What holds of checking whatever is checked: the tables only grow, they
/// stay paired if they were, and with paired tables of one scope no fault
/// of the tables arises.
pub open spec fn sound(before: Tables, checked: Checked) -> bool {
    &&& extends(before, checked.tables)
    &&& paired(before) ==> paired(checked.tables)
    &&& paired(before) && before.names.len() == 1 ==> !table_fault(checked)
}

proof fn lemma_extends_transitive(a: Tables, b: Tables, c: Tables)
    requires
        extends(a, b),
        extends(b, c),
    ensures
        extends(a, c),
{
    assert forall|d: int| 0 <= d < a.names.len() implies (#[trigger] a.names[d]).is_prefix_of(
        c.names[d],
    ) by {
        assert(a.names[d].is_prefix_of(b.names[d]));
        assert(b.names[d].is_prefix_of(c.names[d]));
        assert(a.names[d] =~= c.names[d].subrange(0, a.names[d].len() as int));
    }
    assert forall|d: int| 0 <= d < a.types.len() implies {
        &&& (#[trigger] a.types[d]).types.len() <= c.types[d].types.len()
        &&& a.types[d].aliases == c.types[d].aliases
    } by {
        assert(a.types[d].types.len() <= b.types[d].types.len());
        assert(b.types[d].types.len() <= c.types[d].types.len());
    }
}

proof fn lemma_sound_chain(a: Tables, first: Checked, last: Checked)
    requires
        sound(a, first),
        first.fault is None,
        sound(first.tables, last),
    ensures
        sound(a, last),
{
    lemma_extends_transitive(a, first.tables, last.tables);
}

proof fn lemma_resolve_in_range(names: Seq<Seq<Seq<char>>>, name: Seq<char>)
    ensures
        match resolve(names, name) {
            Some((slot, distance)) => distance < names.len() && slot < names[names.len() - 1
                - distance].len(),
            None => true,
        },
    decreases names.len(),
{
    if names.len() > 0 {
        crate::symtab::lemma_latest(names.last(), name);
        if latest(names.last(), name) is None {
            lemma_resolve_in_range(names.drop_last(), name);
        }
    }
}

proof fn lemma_reserve_sound(tables: Tables, name: Seq<char>)
    requires
        tables.names.len() > 0,
        tables.types.len() > 0,
    ensures
        extends(tables, reserve(tables, name)),
        paired(tables) ==> paired(reserve(tables, name)),
        paired(tables) && tables.names.len() == 1 ==> slot_for(tables, name) < reserve(
            tables,
            name,
        ).types[0].types.len(),
{
    let after = reserve(tables, name);
    lemma_resolve_in_range(tables.names, name);
    assert forall|d: int| 0 <= d < tables.names.len() implies (#[trigger] tables.names[d]).is_prefix_of(
        after.names[d],
    ) by {
        assert(tables.names[d] =~= after.names[d].subrange(0, tables.names[d].len() as int));
    }
}

proof fn lemma_store_sound(before: Tables, tables: Tables, index: nat, t: TypeModel)
    requires
        tables.names.len() > 0,
        tables.types.len() > 0,
        extends(before, tables),
        paired(before) ==> paired(tables),
        paired(before) && before.names.len() == 1 ==> index < tables.types[0].types.len(),
    ensures
        sound(before, store(tables, index, t)),
{
    let after = store(tables, index, t).tables;
    assert forall|d: int| 0 <= d < tables.names.len() implies (#[trigger] tables.names[d]).is_prefix_of(
        after.names[d],
    ) by {
        assert(tables.names[d] =~= after.names[d].subrange(0, tables.names[d].len() as int));
    }
    assert(extends(tables, after));
    lemma_extends_transitive(before, tables, after);
}

proof fn lemma_type_of_sound(tables: Tables, expression: ExpressionModel)
    requires
        paired(tables),
        tables.names.len() == 1,
    ensures
        match type_of(tables, expression) {
            Err((fault, _)) => !(fault is InvalidTypeIndex || fault is InvalidScope),
            Ok(_) => true,
        },
{
    match expression.node {
        ExpressionNodeModel::Identifier(name) => {
            lemma_resolve_in_range(tables.names, name);
        },
        _ => {},
    }
}

proof fn lemma_conclude_sound(
    before: Tables,
    checked: Checked,
    index: nat,
    declared: TypeModel,
    initializer: ExpressionModel,
)
    requires
        checked.tables.names.len() > 0,
        checked.tables.types.len() > 0,
        sound(before, checked),
        paired(before) && before.names.len() == 1 ==> index < checked.tables.types[0].types.len(),
    ensures
        sound(before, conclude(checked, index, declared, initializer)),
{
    if checked.fault is None {
        if paired(before) && before.names.len() == 1 {
            lemma_type_of_sound(checked.tables, initializer);
        }
        match type_of(checked.tables, initializer) {
            Err(_) => {},
            Ok(found) => {
                lemma_store_sound(before, checked.tables, index, found);
                lemma_store_sound(before, checked.tables, index, declared);
            },
        }
    }
}

proof fn lemma_register_sound(tables: Tables, targets: Seq<ExpressionModel>, from: nat)
    requires
        tables.names.len() > 0,
        tables.types.len() > 0,
    ensures
        sound(tables, register(tables, targets, from)),
    decreases targets.len() - from,
{
    if from < targets.len() {
        match targets[from as int].node {
            ExpressionNodeModel::Identifier(name) => {
                let next = Tables { names: declare(tables.names, name), types: grown(tables.types) };
                assert forall|d: int| 0 <= d < tables.names.len() implies (
                #[trigger] tables.names[d]).is_prefix_of(next.names[d]) by {
                    assert(tables.names[d] =~= next.names[d].subrange(
                        0,
                        tables.names[d].len() as int,
                    ));
                }
                lemma_register_sound(next, targets, from + 1);
                lemma_extends_transitive(tables, next, register(next, targets, from + 1).tables);
            },
            _ => {
                lemma_extends_reflexive(tables);
            },
        }
    } else {
        lemma_extends_reflexive(tables);
    }
}

proof fn lemma_extends_reflexive(tables: Tables)
    ensures
        extends(tables, tables),
{
    assert forall|d: int| 0 <= d < tables.names.len() implies (#[trigger] tables.names[d]).is_prefix_of(
        tables.names[d],
    ) by {
        assert(tables.names[d] =~= tables.names[d].subrange(0, tables.names[d].len() as int));
    }
}

/// Checking an expression only lets the tables grow, keeps them paired,
/// and in one paired scope meets no fault of the tables.
pub proof fn lemma_expression_sound(tables: Tables, expression: ExpressionModel)
    requires
        tables.names.len() > 0,
        tables.types.len() > 0,
    ensures
        sound(tables, check_expression(tables, expression)),
    decreases expression, 0nat,
{
    lemma_extends_reflexive(tables);
    match expression.node {
        ExpressionNodeModel::Tuple(content) => lemma_expressions_sound(tables, content, 0),
        ExpressionNodeModel::Block(statements) => lemma_statements_sound(tables, statements, 0),
        _ => {},
    }
}

/// The same of a list of expressions, checked from `from` on.
pub proof fn lemma_expressions_sound(tables: Tables, expressions: Seq<ExpressionModel>, from: nat)
    requires
        tables.names.len() > 0,
        tables.types.len() > 0,
    ensures
        sound(tables, check_expressions(tables, expressions, from)),
    decreases expressions, expressions.len() - from,
{
    lemma_extends_reflexive(tables);
    if from < expressions.len() {
        let first = check_expression(tables, expressions[from as int]);
        lemma_expression_sound(tables, expressions[from as int]);
        if first.fault is None {
            lemma_expressions_sound(first.tables, expressions, from + 1);
            lemma_sound_chain(
                tables,
                first,
                check_expressions(first.tables, expressions, from + 1),
            );
        }
    }
}

/// Every declaration keeps the two tables paired: a statement only lets
/// the tables grow, leaves them paired if they were, and in one paired
/// scope meets no fault of the tables.
pub proof fn lemma_statement_sound(tables: Tables, statement: StatementModel)
    requires
        tables.names.len() > 0,
        tables.types.len() > 0,
    ensures
        sound(tables, check_statement(tables, statement)),
    decreases statement, 1nat,
{
    lemma_node_sound(tables, statement.node);
}

proof fn lemma_node_sound(tables: Tables, node: StatementNodeModel)
    requires
        tables.names.len() > 0,
        tables.types.len() > 0,
    ensures
        sound(tables, check_node(tables, node)),
    decreases node, 0nat,
{
    lemma_extends_reflexive(tables);
    match node {
        StatementNodeModel::Expression(expression) => lemma_expression_sound(tables, expression),
        StatementNodeModel::Variable(declared, left, right) => match left.node {
            ExpressionNodeModel::Identifier(name) => {
                let reserved = reserve(tables, name);
                lemma_reserve_sound(tables, name);
                match right {
                    Some(initializer) => {
                        lemma_declaration_sound(tables, name, declared, initializer);
                    },
                    None => {
                        lemma_store_sound(tables, reserved, slot_for(tables, name), declared);
                    },
                }
            },
            ExpressionNodeModel::Tuple(targets) => lemma_register_sound(tables, targets, 0),
            _ => {},
        },
        StatementNodeModel::Constant(declared, left, right) => match left.node {
            ExpressionNodeModel::Identifier(name) => {
                lemma_declaration_sound(tables, name, declared, right);
            },
            ExpressionNodeModel::Tuple(targets) => lemma_register_sound(tables, targets, 0),
            _ => {},
        },
    }
}

proof fn lemma_declaration_sound(
    tables: Tables,
    name: Seq<char>,
    declared: TypeModel,
    initializer: ExpressionModel,
)
    requires
        tables.names.len() > 0,
        tables.types.len() > 0,
    ensures
        sound(
            tables,
            conclude(
                check_expression(reserve(tables, name), initializer),
                slot_for(tables, name),
                declared,
                initializer,
            ),
        ),
    decreases initializer, 1nat,
{
    let reserved = reserve(tables, name);
    lemma_reserve_sound(tables, name);
    let checked = check_expression(reserved, initializer);
    lemma_expression_sound(reserved, initializer);
    lemma_extends_transitive(tables, reserved, checked.tables);
    lemma_conclude_sound(tables, checked, slot_for(tables, name), declared, initializer);
}

/// The same of a list of statements, checked from `from` on.
pub proof fn lemma_statements_sound(tables: Tables, statements: Seq<StatementModel>, from: nat)
    requires
        tables.names.len() > 0,
        tables.types.len() > 0,
    ensures
        sound(tables, check_statements(tables, statements, from)),
    decreases statements, statements.len() - from,
{
    lemma_extends_reflexive(tables);
    if from < statements.len() {
        let first = check_statement(tables, statements[from as int]);
        lemma_statement_sound(tables, statements[from as int]);
        if first.fault is None {
            lemma_statements_sound(first.tables, statements, from + 1);
            lemma_sound_chain(tables, first, check_statements(first.tables, statements, from + 1));
        }
    }
}

/// The checker: the two scope tables, the source for diagnostics, and the
/// program to check.
pub struct Visitor<'v> {
    pub symtab: SymTab,
    pub typetab: TypeTab,
    pub source: &'v Source,
    pub ast: &'v Vec<Statement>,
}

impl<'v> Visitor<'v> {
    /// The two tables side by side.
    pub open spec fn tables(&self) -> Tables {
        Tables { names: self.symtab@, types: self.typetab@ }
    }

    /// Whether `after` and `result` are what `checked` says of a visitor
    /// that was `self` before: the tables are those of `checked`, the
    /// source and the program are untouched, and the result reports the
    /// fault of `checked`, under the name of the source's file.
    pub open spec fn reports(
        &self,
        after: &Visitor<'v>,
        result: Result<(), Diagnostic>,
        checked: Checked,
    ) -> bool {
        &&& after.tables() == checked.tables
        &&& after.source == self.source
        &&& after.ast == self.ast
        &&& match checked.fault {
            None => result is Ok,
            Some((fault, position)) => result is Err && result->Err_0@ == (DiagnosticModel {
                fault,
                file: self.source.file@,
                position,
            }),
        }
    }

    /// A checker for a program, with nothing declared yet.
    pub fn new(source: &'v Source, ast: &'v Vec<Statement>) -> (visitor: Self)
        ensures
            visitor.symtab@ == seq![Seq::<Seq<char>>::empty()],
            visitor.typetab@ == seq![
                ScopeModel { types: Seq::<TypeModel>::empty(), aliases: Map::empty() },
            ],
            visitor.source == source,
            visitor.ast == ast,
    {
        Visitor { symtab: SymTab::global(), typetab: TypeTab::global(), source, ast }
    }

    /// A diagnostic for a fault found in this checker's source.
    fn diagnose(&self, fault: Fault, position: Option<Position>) -> (diagnostic: Diagnostic)
        ensures
            diagnostic@ == (DiagnosticModel { fault: fault@, file: self.source.file@, position }),
    {
        Diagnostic::new(fault, self.source.file.as_str(), position)
    }

    /// Checks the program, statement by statement, up to the first fault.
    pub fn visit(&mut self) -> (result: Result<(), Diagnostic>)
        ensures
            old(self).reports(
                final(self),
                result,
                check_statements(old(self).tables(), statement_models(old(self).ast@), 0),
            ),
    {
        let ast = self.ast;
        let ghost statements = statement_models(ast@);
        let mut i: usize = 0;
        while i < ast.len()
            invariant
                i <= ast.len(),
                ast == old(self).ast,
                self.ast == old(self).ast,
                self.source == old(self).source,
                statements == statement_models(ast@),
                check_statements(old(self).tables(), statements, 0) == check_statements(
                    self.tables(),
                    statements,
                    i as nat,
                ),
            decreases ast.len() - i,
        {
            match self.visit_statement(&ast[i]) {
                Err(diagnostic) => {
                    return Err(diagnostic);
                },
                Ok(()) => {},
            }
            i += 1;
        }
        Ok(())
    }

    /// Checks one statement.
    pub fn visit_statement(&mut self, statement: &Statement) -> (result: Result<(), Diagnostic>)
        ensures
            old(self).reports(final(self), result, check_statement(old(self).tables(), statement@)),
        decreases statement, 1nat,
    {
        proof {
            lemma_statement_view(statement);
        }
        match &statement.node {
            StatementNode::Expression(expression) => self.visit_expression(expression),
            StatementNode::Variable(_, _, _) => self.visit_variable(&statement.node),
            StatementNode::Constant(_, _, _) => self.visit_constant(&statement.node),
        }
    }

    /// Checks one expression.
    #[verifier::loop_isolation(false)]
    pub fn visit_expression(&mut self, expression: &Expression) -> (result: Result<(), Diagnostic>)
        ensures
            old(self).reports(
                final(self),
                result,
                check_expression(old(self).tables(), expression@),
            ),
        decreases expression, 0nat,
    {
        proof {
            lemma_expression_view(expression);
        }
        match &expression.node {
            ExpressionNode::Identifier(name) => {
                if self.symtab.get_name(name.as_str()).is_none() {
                    Err(self.diagnose(Fault::Undeclared(name.clone()), Some(expression.pos)))
                } else {
                    Ok(())
                }
            },
            ExpressionNode::Tuple(content) => {
                let ghost models = expression@.node->Tuple_0;
                let mut i: usize = 0;
                while i < content.len()
                    invariant
                        i <= content.len(),
                        self.ast == old(self).ast,
                        self.source == old(self).source,
                        check_expressions(old(self).tables(), models, 0) == check_expressions(
                            self.tables(),
                            models,
                            i as nat,
                        ),
                    decreases content.len() - i,
                {
                    assert(models[i as int] == content@[i as int]@);
                    match self.visit_expression(&content[i]) {
                        Err(diagnostic) => {
                            return Err(diagnostic);
                        },
                        Ok(()) => {},
                    }
                    i += 1;
                }
                Ok(())
            },
            ExpressionNode::Block(statements) => {
                let ghost models = expression@.node->Block_0;
                let mut i: usize = 0;
                while i < statements.len()
                    invariant
                        i <= statements.len(),
                        self.ast == old(self).ast,
                        self.source == old(self).source,
                        check_statements(old(self).tables(), models, 0) == check_statements(
                            self.tables(),
                            models,
                            i as nat,
                        ),
                    decreases statements.len() - i,
                {
                    assert(models[i as int] == statements@[i as int]@);
                    match self.visit_statement(&statements[i]) {
                        Err(diagnostic) => {
                            return Err(diagnostic);
                        },
                        Ok(()) => {},
                    }
                    i += 1;
                }
                Ok(())
            },
            _ => Ok(()),
        }
    }

    /// Makes room for a declaration of `name` and returns its slot.
    fn reserve_slot(&mut self, name: &String) -> (index: usize)
        ensures
            final(self).tables() == reserve(old(self).tables(), name@),
            index == slot_for(old(self).tables(), name@),
            final(self).source == old(self).source,
            final(self).ast == old(self).ast,
    {
        let index = match self.symtab.get_name(name.as_str()) {
            Some((index, _)) => index,
            None => self.symtab.add_name(name.as_str()),
        };
        self.typetab.grow();
        index
    }

    /// Records the type of slot `index` of the innermost scope.
    fn store_type(&mut self, index: usize, t: Type) -> (result: Result<(), Diagnostic>)
        ensures
            old(self).reports(final(self), result, store(old(self).tables(), index as nat, t@)),
    {
        match self.typetab.set_type(index, 0, t) {
            Ok(()) => Ok(()),
            Err(fault) => Err(self.diagnose(fault, None)),
        }
    }

    /// Ends a declaration whose initializer has been checked.
    fn conclude_declaration(&mut self, index: usize, declared: &Type, initializer: &Expression) -> (result:
        Result<(), Diagnostic>)
        ensures
            old(self).reports(
                final(self),
                result,
                conclude(pass(old(self).tables()), index as nat, declared@, initializer@),
            ),
    {
        let found = match self.type_expression(initializer) {
            Ok(found) => found,
            Err(diagnostic) => {
                return Err(diagnostic);
            },
        };
        if declared.node != TypeNode::Nil {
            if *declared != found {
                Err(
                    self.diagnose(
                        Fault::Mismatched(declared.node.clone(), found),
                        Some(initializer.pos),
                    ),
                )
            } else {
                self.store_type(index, declared.clone())
            }
        } else {
            self.store_type(index, found)
        }
    }

    /// Declares the names of a tuple target.
    fn register_targets(&mut self, targets: &Vec<Expression>) -> (result: Result<(), Diagnostic>)
        ensures
            old(self).reports(
                final(self),
                result,
                register(old(self).tables(), expression_models(targets@), 0),
            ),
    {
        let ghost models = expression_models(targets@);
        let mut i: usize = 0;
        while i < targets.len()
            invariant
                i <= targets.len(),
                models == expression_models(targets@),
                self.ast == old(self).ast,
                self.source == old(self).source,
                register(old(self).tables(), models, 0) == register(
                    self.tables(),
                    models,
                    i as nat,
                ),
            decreases targets.len() - i,
        {
            proof {
                lemma_expression_view(&targets[i as int]);
            }
            match &targets[i].node {
                ExpressionNode::Identifier(name) => {
                    self.symtab.add_name(name.as_str());
                    self.typetab.grow();
                },
                _ => {
                    return Err(self.diagnose(Fault::NonIdentifier, Some(targets[i].pos)));
                },
            }
            i += 1;
        }
        Ok(())
    }

    /// Checks the declaration of a variable.
    fn visit_variable(&mut self, variable: &StatementNode) -> (result: Result<(), Diagnostic>)
        requires
            variable is Variable,
        ensures
            old(self).reports(
                final(self),
                result,
                check_node(old(self).tables(), variable@),
            ),
        decreases variable,
    {
        match variable {
            StatementNode::Variable(_, left, _) => {
                proof {
                    lemma_expression_view(left);
                }
            },
            _ => {},
        }
        match variable {
            StatementNode::Variable(declared, left, right) => match &left.node {
                ExpressionNode::Identifier(name) => {
                    let index = self.reserve_slot(name);
                    match right {
                        Some(initializer) => {
                            match self.visit_expression(initializer) {
                                Err(diagnostic) => {
                                    return Err(diagnostic);
                                },
                                Ok(()) => {},
                            }
                            self.conclude_declaration(index, declared, initializer)
                        },
                        None => self.store_type(index, declared.clone()),
                    }
                },
                ExpressionNode::Tuple(targets) => self.register_targets(targets),
                _ => Err(self.diagnose(Fault::UnexpectedVariable, Some(left.pos))),
            },
            _ => Ok(()),
        }
    }

    /// Checks the declaration of a constant.
    fn visit_constant(&mut self, constant: &StatementNode) -> (result: Result<(), Diagnostic>)
        requires
            constant is Constant,
        ensures
            old(self).reports(
                final(self),
                result,
                check_node(old(self).tables(), constant@),
            ),
        decreases constant,
    {
        match constant {
            StatementNode::Constant(_, left, _) => {
                proof {
                    lemma_expression_view(left);
                }
            },
            _ => {},
        }
        match constant {
            StatementNode::Constant(declared, left, right) => match &left.node {
                ExpressionNode::Identifier(name) => {
                    let index = self.reserve_slot(name);
                    match self.visit_expression(right) {
                        Err(diagnostic) => {
                            return Err(diagnostic);
                        },
                        Ok(()) => {},
                    }
                    self.conclude_declaration(index, declared, right)
                },
                ExpressionNode::Tuple(targets) => self.register_targets(targets),
                _ => Err(self.diagnose(Fault::UnexpectedConstant, Some(left.pos))),
            },
            _ => Ok(()),
        }
    }

    /// Reads the type of an expression off its form.
    pub fn type_expression(&self, expression: &Expression) -> (result: Result<Type, Diagnostic>)
        ensures
            match type_of(self.tables(), expression@) {
                Ok(t) => result is Ok && result->Ok_0@ == t,
                Err((fault, position)) => result is Err && result->Err_0@ == (DiagnosticModel {
                    fault,
                    file: self.source.file@,
                    position,
                }),
            },
    {
        proof {
            lemma_expression_view(expression);
        }
        match &expression.node {
            ExpressionNode::Identifier(name) => match self.symtab.get_name(name.as_str()) {
                Some((index, env_index)) => match self.typetab.get_type(index, env_index) {
                    Ok(t) => Ok(t),
                    Err(fault) => Err(self.diagnose(fault, None)),
                },
                None => Err(self.diagnose(Fault::Undeclared(name.clone()), Some(expression.pos))),
            },
            ExpressionNode::Str(_) => Ok(Type::string()),
            ExpressionNode::Char(_) => Ok(Type::char()),
            ExpressionNode::Bool(_) => Ok(Type::bool()),
            ExpressionNode::Number(_) => Ok(Type::number()),
            _ => Ok(Type::nil()),
        }
    }
}

} // verus!
