//! Types of the language and the relaxed relation under which the checker
//! compares them.

use vstd::prelude::*;
use vstd::string::*;

verus! {

/// How a slot was declared.
#[derive(Debug, Clone, Copy)]
pub enum TypeMode {
    Undeclared,
    Immutable,
    Optional,
    Regular,
}

/// The shape of a type.
#[derive(Debug)]
pub enum TypeNode {
    Int,
    Float,
    Number,
    Bool,
    Str,
    Char,
    Nil,
    Id(String),
    Tuple(Vec<Type>),
}

/// A shape together with the mode of its declaration.
#[derive(Debug)]
pub struct Type {
    pub node: TypeNode,
    pub mode: TypeMode,
}

/// Mathematical value of a [`TypeNode`].
pub enum NodeModel {
    Int,
    Float,
    Number,
    Bool,
    Str,
    Char,
    Nil,
    Id(Seq<char>),
    Tuple(Seq<TypeModel>),
}

/// Mathematical value of a [`Type`].
pub struct TypeModel {
    pub node: NodeModel,
    pub mode: TypeMode,
}

impl TypeMode {
    /// Strict agreement: both modes are the same variant.
    pub open spec fn same(self, other: TypeMode) -> bool {
        self == other
    }

    /// The relaxed agreement used when two types are compared. `Optional`
    /// agrees with everything, `Regular` and `Immutable` agree with each
    /// other, and `Undeclared` agrees only with `Optional`.
    pub open spec fn agrees(self, other: TypeMode) -> bool {
        if self is Optional || other is Optional {
            true
        } else {
            !(self is Undeclared) && !(other is Undeclared)
        }
    }

    /// The words a mode puts in front of a shape when a type is written out.
    pub open spec fn prefix(self) -> Seq<char> {
        match self {
            TypeMode::Regular => Seq::empty(),
            TypeMode::Immutable => "constant "@,
            TypeMode::Undeclared => "undeclared "@,
            TypeMode::Optional => "optional "@,
        }
    }

    /// Strict, reflexive comparison of two modes.
    pub fn check(&self, other: &TypeMode) -> (same: bool)
        ensures
            same == self.same(*other),
    {
        match (self, other) {
            (TypeMode::Regular, TypeMode::Regular) => true,
            (TypeMode::Immutable, TypeMode::Immutable) => true,
            (TypeMode::Undeclared, TypeMode::Undeclared) => true,
            (TypeMode::Optional, TypeMode::Optional) => true,
            _ => false,
        }
    }

    /// Writes the mode out as it appears in front of a shape.
    pub fn to_string(&self) -> (text: String)
        ensures
            text@ == self.prefix(),
    {
        match self {
            TypeMode::Regular => String::new(),
            TypeMode::Immutable => String::from_str("constant "),
            TypeMode::Undeclared => String::from_str("undeclared "),
            TypeMode::Optional => String::from_str("optional "),
        }
    }
}

impl PartialEq for TypeMode {
    fn eq(&self, other: &TypeMode) -> (agree: bool) {
        match (self, other) {
            (_, TypeMode::Optional) => true,
            (TypeMode::Optional, _) => true,
            (TypeMode::Undeclared, _) => false,
            (_, TypeMode::Undeclared) => false,
            _ => true,
        }
    }
}

impl vstd::std_specs::cmp::PartialEqSpecImpl for TypeMode {
    open spec fn obeys_eq_spec() -> bool {
        true
    }

    open spec fn eq_spec(&self, other: &TypeMode) -> bool {
        self.agrees(*other)
    }
}

impl NodeModel {
    /// The relaxed agreement of two shapes: `Number` agrees with `Int` and
    /// `Float` in either direction, names agree when they are the same
    /// name, and tuples agree when they have the same length and their
    /// elements agree pairwise. Everything else agrees only with itself.
    pub open spec fn agrees(self, other: NodeModel) -> bool
        decreases self,
    {
        match (self, other) {
            (NodeModel::Int, NodeModel::Int) => true,
            (NodeModel::Int, NodeModel::Number) => true,
            (NodeModel::Number, NodeModel::Int) => true,
            (NodeModel::Float, NodeModel::Float) => true,
            (NodeModel::Float, NodeModel::Number) => true,
            (NodeModel::Number, NodeModel::Float) => true,
            (NodeModel::Number, NodeModel::Number) => true,
            (NodeModel::Bool, NodeModel::Bool) => true,
            (NodeModel::Str, NodeModel::Str) => true,
            (NodeModel::Char, NodeModel::Char) => true,
            (NodeModel::Nil, NodeModel::Nil) => true,
            (NodeModel::Id(a), NodeModel::Id(b)) => a == b,
            (NodeModel::Tuple(a), NodeModel::Tuple(b)) => {
                &&& a.len() == b.len()
                &&& forall|i: int| 0 <= i < a.len() ==> (#[trigger] a[i]).agrees(b[i])
            },
            _ => false,
        }
    }

    /// The shape written out.
    pub open spec fn text(self) -> Seq<char>
        decreases self, 0nat,
    {
        match self {
            NodeModel::Number => "number"@,
            NodeModel::Int => "int"@,
            NodeModel::Float => "float"@,
            NodeModel::Bool => "bool"@,
            NodeModel::Str => "string"@,
            NodeModel::Char => "char"@,
            NodeModel::Nil => "nil"@,
            NodeModel::Id(name) => name,
            NodeModel::Tuple(content) => "("@ + elements_text(content, content.len()) + ")"@,
        }
    }
}

impl TypeModel {
    /// Two types agree when their shapes agree and their modes agree.
    pub open spec fn agrees(self, other: TypeModel) -> bool
        decreases self,
    {
        self.node.agrees(other.node) && self.mode.agrees(other.mode)
    }

    /// The type written out: the mode's words, then the shape.
    pub open spec fn text(self) -> Seq<char>
        decreases self, 0nat,
    {
        self.mode.prefix() + self.node.text()
    }
}

/// The first `n` elements of a tuple written out, each followed by a comma.
pub open spec fn elements_text(content: Seq<TypeModel>, n: nat) -> Seq<char>
    decreases content, n,
{
    if n == 0 || n > content.len() {
        Seq::empty()
    } else {
        elements_text(content, (n - 1) as nat) + content[n - 1].text() + ","@
    }
}

/// The values of a list of types, element by element.
pub open spec fn models(types: Seq<Type>) -> Seq<TypeModel> {
    Seq::new(types.len(), |i: int| types[i]@)
}

impl View for TypeNode {
    type V = NodeModel;

    open spec fn view(&self) -> NodeModel
        decreases self,
    {
        match self {
            TypeNode::Int => NodeModel::Int,
            TypeNode::Float => NodeModel::Float,
            TypeNode::Number => NodeModel::Number,
            TypeNode::Bool => NodeModel::Bool,
            TypeNode::Str => NodeModel::Str,
            TypeNode::Char => NodeModel::Char,
            TypeNode::Nil => NodeModel::Nil,
            TypeNode::Id(name) => NodeModel::Id(name@),
            TypeNode::Tuple(content) => NodeModel::Tuple(
                Seq::new(
                    content@.len(),
                    |i: int|
                        if 0 <= i < content@.len() {
                            content@[i]@
                        } else {
                            TypeModel { node: NodeModel::Nil, mode: TypeMode::Regular }
                        },
                ),
            ),
        }
    }
}

impl View for Type {
    type V = TypeModel;

    open spec fn view(&self) -> TypeModel
        decreases self,
    {
        TypeModel { node: self.node@, mode: self.mode }
    }
}

impl TypeNode {
    /// Decides the relaxed agreement of two shapes.
    #[verifier::loop_isolation(false)]
    fn agrees_with(&self, other: &TypeNode) -> (agree: bool)
        ensures
            agree == self@.agrees(other@),
        decreases self,
    {
        match (self, other) {
            (TypeNode::Int, TypeNode::Int) => true,
            (TypeNode::Int, TypeNode::Number) => true,
            (TypeNode::Number, TypeNode::Int) => true,
            (TypeNode::Float, TypeNode::Float) => true,
            (TypeNode::Float, TypeNode::Number) => true,
            (TypeNode::Number, TypeNode::Float) => true,
            (TypeNode::Number, TypeNode::Number) => true,
            (TypeNode::Bool, TypeNode::Bool) => true,
            (TypeNode::Str, TypeNode::Str) => true,
            (TypeNode::Char, TypeNode::Char) => true,
            (TypeNode::Nil, TypeNode::Nil) => true,
            (TypeNode::Id(a), TypeNode::Id(b)) => *a == *b,
            (TypeNode::Tuple(a), TypeNode::Tuple(b)) => {
                if a.len() != b.len() {
                    return false;
                }
                let ghost left = self@->Tuple_0;
                let ghost right = other@->Tuple_0;
                let mut i: usize = 0;
                while i < a.len()
                    invariant
                        i <= a.len(),
                        forall|j: int| 0 <= j < i ==> (#[trigger] left[j]).agrees(right[j]),
                    decreases a.len() - i,
                {
                    if !a[i].agrees_with(&b[i]) {
                        assert(!left[i as int].agrees(right[i as int]));
                        return false;
                    }
                    i += 1;
                }
                true
            },
            _ => false,
        }
    }

    /// Writes the shape out.
    #[verifier::loop_isolation(false)]
    pub fn to_string(&self) -> (text: String)
        ensures
            text@ == self@.text(),
        decreases self,
    {
        match self {
            TypeNode::Number => String::from_str("number"),
            TypeNode::Int => String::from_str("int"),
            TypeNode::Float => String::from_str("float"),
            TypeNode::Bool => String::from_str("bool"),
            TypeNode::Str => String::from_str("string"),
            TypeNode::Char => String::from_str("char"),
            TypeNode::Nil => String::from_str("nil"),
            TypeNode::Id(name) => name.clone(),
            TypeNode::Tuple(content) => {
                let mut text = String::from_str("(");
                let mut i: usize = 0;
                while i < content.len()
                    invariant
                        i <= content.len(),
                        text@ == "("@ + elements_text(self@->Tuple_0, i as nat),
                    decreases content.len() - i,
                {
                    let element = content[i].to_string();
                    text.append(element.as_str());
                    text.append(",");
                    i += 1;
                }
                text.append(")");
                text
            },
        }
    }
}

impl Clone for TypeNode {
    #[verifier::loop_isolation(false)]
    fn clone(&self) -> (copy: TypeNode)
        ensures
            copy@ == self@,
        decreases self,
    {
        match self {
            TypeNode::Int => TypeNode::Int,
            TypeNode::Float => TypeNode::Float,
            TypeNode::Number => TypeNode::Number,
            TypeNode::Bool => TypeNode::Bool,
            TypeNode::Str => TypeNode::Str,
            TypeNode::Char => TypeNode::Char,
            TypeNode::Nil => TypeNode::Nil,
            TypeNode::Id(name) => TypeNode::Id(name.clone()),
            TypeNode::Tuple(content) => {
                let mut copies: Vec<Type> = Vec::new();
                let mut i: usize = 0;
                while i < content.len()
                    invariant
                        i <= content.len(),
                        copies.len() == i,
                        forall|j: int| 0 <= j < i ==> (#[trigger] copies@[j])@ == content@[j]@,
                    decreases content.len() - i,
                {
                    copies.push(content[i].clone());
                    i += 1;
                }
                let copy = TypeNode::Tuple(copies);
                assert(copy@->Tuple_0 =~= self@->Tuple_0);
                copy
            },
        }
    }
}

impl PartialEq for TypeNode {
    fn eq(&self, other: &TypeNode) -> (agree: bool) {
        self.agrees_with(other)
    }
}

impl vstd::std_specs::cmp::PartialEqSpecImpl for TypeNode {
    open spec fn obeys_eq_spec() -> bool {
        true
    }

    open spec fn eq_spec(&self, other: &TypeNode) -> bool {
        self@.agrees(other@)
    }
}

impl Type {
    /// A type of the given shape and mode.
    pub fn new(node: TypeNode, mode: TypeMode) -> (t: Type)
        ensures
            t.node == node,
            t.mode == mode,
            t@ == (TypeModel { node: node@, mode }),
    {
        Type { node, mode }
    }

    /// The type that a name stands for, declared regularly.
    pub fn id(id: &str) -> (t: Type)
        ensures
            t@ == (TypeModel { node: NodeModel::Id(id@), mode: TypeMode::Regular }),
    {
        Type::new(TypeNode::Id(String::from_str(id)), TypeMode::Regular)
    }

    /// The type of a number that is not yet known to be whole or fractional.
    pub fn number() -> (t: Type)
        ensures
            t@ == (TypeModel { node: NodeModel::Number, mode: TypeMode::Regular }),
    {
        Type::new(TypeNode::Number, TypeMode::Regular)
    }

    /// The type of whole numbers.
    pub fn integer() -> (t: Type)
        ensures
            t@ == (TypeModel { node: NodeModel::Int, mode: TypeMode::Regular }),
    {
        Type::new(TypeNode::Int, TypeMode::Regular)
    }

    /// The type of fractional numbers.
    pub fn float() -> (t: Type)
        ensures
            t@ == (TypeModel { node: NodeModel::Float, mode: TypeMode::Regular }),
    {
        Type::new(TypeNode::Float, TypeMode::Regular)
    }

    /// The type of strings.
    pub fn string() -> (t: Type)
        ensures
            t@ == (TypeModel { node: NodeModel::Str, mode: TypeMode::Regular }),
    {
        Type::new(TypeNode::Str, TypeMode::Regular)
    }

    /// The type of characters.
    pub fn char() -> (t: Type)
        ensures
            t@ == (TypeModel { node: NodeModel::Char, mode: TypeMode::Regular }),
    {
        Type::new(TypeNode::Char, TypeMode::Regular)
    }

    /// The type of truth values.
    pub fn bool() -> (t: Type)
        ensures
            t@ == (TypeModel { node: NodeModel::Bool, mode: TypeMode::Regular }),
    {
        Type::new(TypeNode::Bool, TypeMode::Regular)
    }

    /// The placeholder for a type that has not been given.
    pub fn nil() -> (t: Type)
        ensures
            t@ == (TypeModel { node: NodeModel::Nil, mode: TypeMode::Regular }),
    {
        Type::new(TypeNode::Nil, TypeMode::Regular)
    }

    /// Decides the relaxed agreement of two types.
    fn agrees_with(&self, other: &Type) -> (agree: bool)
        ensures
            agree == self@.agrees(other@),
        decreases self,
    {
        self.node.agrees_with(&other.node) && self.mode == other.mode
    }

    /// Writes the type out: the mode's words, then the shape.
    pub fn to_string(&self) -> (text: String)
        ensures
            text@ == self@.text(),
        decreases self,
    {
        let mut text = self.mode.to_string();
        let node = self.node.to_string();
        text.append(node.as_str());
        text
    }
}

impl Clone for Type {
    fn clone(&self) -> (copy: Type)
        ensures
            copy@ == self@,
        decreases self,
    {
        Type { node: self.node.clone(), mode: self.mode }
    }
}

impl PartialEq for Type {
    fn eq(&self, other: &Type) -> (agree: bool) {
        self.agrees_with(other)
    }
}

impl vstd::std_specs::cmp::PartialEqSpecImpl for Type {
    open spec fn obeys_eq_spec() -> bool {
        true
    }

    open spec fn eq_spec(&self, other: &Type) -> bool {
        self@.agrees(other@)
    }
}


/// The lattice of modes. `Regular` and `Immutable` agree with each other
/// in both directions; `Optional` agrees with every mode, `Undeclared`
/// included, in both directions; `Undeclared` does not agree with itself,
/// though the strict comparison of a mode with itself always holds.
pub proof fn lemma_mode_lattice(x: TypeMode)
    ensures
        TypeMode::Regular.agrees(TypeMode::Immutable),
        TypeMode::Immutable.agrees(TypeMode::Regular),
        TypeMode::Optional.agrees(x),
        x.agrees(TypeMode::Optional),
        !TypeMode::Undeclared.agrees(TypeMode::Undeclared),
        !(x is Optional) ==> !TypeMode::Undeclared.agrees(x) && !x.agrees(TypeMode::Undeclared),
        x.same(x),
        TypeMode::Undeclared.same(TypeMode::Undeclared),
{
}

/// `Number` agrees with each numeric shape, itself included, in both
/// directions, and with no other shape; `Int` and `Float` do not agree
/// with each other.
pub proof fn lemma_number_widens(x: NodeModel)
    ensures
        NodeModel::Number.agrees(x) <==> (x is Int || x is Float || x is Number),
        x.agrees(NodeModel::Number) <==> (x is Int || x is Float || x is Number),
        !NodeModel::Int.agrees(NodeModel::Float),
        !NodeModel::Float.agrees(NodeModel::Int),
{
}

} // verus!
