use vstd::prelude::*;

use crate::ast::{Expression, Statement};
use crate::bignum::BigNum;
use crate::literal::values_view;
use crate::report::Report;
use crate::table::ConstantTable;

verus! {

/// A template argument bound at instantiation: its name, its flattened
/// literal values and its shape.
pub struct Argument {
    pub name: String,
    pub values: Vec<BigNum>,
    pub lengths: Vec<usize>,
}

/// One variable of an execution environment, with its shape and flattened
/// contents.
pub struct Binding {
    pub name: String,
    pub dimensions: Vec<usize>,
    pub values: Vec<BigNum>,
}

impl Binding {
    pub open spec fn view(&self) -> (Seq<char>, Seq<usize>, Seq<int>) {
        (self.name@, self.dimensions@, values_view(self.values@))
    }
}

/// The read-only bindings that the constant-expression interpreter sees.
pub struct Environment {
    pub bindings: Vec<Binding>,
}

impl Environment {
    pub open spec fn view(&self) -> Seq<(Seq<char>, Seq<usize>, Seq<int>)> {
        self.bindings@.map_values(|b: Binding| b@)
    }

    pub fn new() -> (r: Environment)
        ensures
            r@ == Seq::<(Seq<char>, Seq<usize>, Seq<int>)>::empty(),
    {
        let r = Environment { bindings: Vec::new() };
        assert(r@ =~= Seq::<(Seq<char>, Seq<usize>, Seq<int>)>::empty());
        r
    }

    pub fn add_variable(&mut self, binding: Binding)
        ensures
            final(self)@ == old(self)@.push(binding@),
    {
        self.bindings.push(binding);
        assert(self@ =~= old(self)@.push(binding@));
    }
}

/// The interpreter that resolves a constant expression that is not a literal,
/// in an environment. Nothing is assumed of its answers: whatever it returns,
/// the walk stays within its contracts.
pub trait ConstantInterpreter {
    fn execute_constant_expression(&self, expression: &Expression, environment: &Environment) -> Result<
        BigNum,
        Vec<Report>,
    >;
}

/// One concrete instantiation of a template.
pub struct TemplateInstance {
    pub template_name: String,
    pub header: Vec<Argument>,
    pub code: Statement,
    pub constant_variables: ConstantTable,
}

/// One function of the program.
pub struct FunctionData {
    pub name: String,
    pub body: Statement,
    pub constant_variables: ConstantTable,
}

/// The concrete program: its template instances and its functions.
pub struct VCP {
    pub templates: Vec<TemplateInstance>,
    pub functions: Vec<FunctionData>,
}

} // verus!
