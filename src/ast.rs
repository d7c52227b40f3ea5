use vstd::prelude::*;

use crate::bignum::BigNum;

verus! {

/// Source position of a node and the type knowledge attached to it upstream.
#[derive(Clone, Copy, Debug, PartialEq, Eq)]
pub struct Meta {
    pub start: usize,
    pub end: usize,
    pub file_id: usize,
    /// The node's target was resolved to a component.
    pub is_component: bool,
    /// The node's target was resolved to a tag.
    pub is_tag: bool,
}

/// Kind of a declared variable.
#[derive(Clone, Copy, Debug, PartialEq, Eq)]
pub enum VariableType {
    Var,
    Signal,
    Bus,
    Component,
    AnonymousComponent,
}

/// Expressions, as far as constant resolution tells them apart.
#[derive(Debug)]
pub enum Expression {
    Number(Meta, BigNum),
    Variable { meta: Meta, name: String },
    Call { meta: Meta, id: String, args: Vec<Expression> },
    BusCall { meta: Meta, id: String, args: Vec<Expression> },
    InfixOp { meta: Meta, lhe: Box<Expression>, rhe: Box<Expression> },
    ArrayInLine { meta: Meta, values: Vec<Expression> },
    UniformArray { meta: Meta, value: Box<Expression>, dimension: Box<Expression> },
}

/// One step of the access path of a substitution target.
#[derive(Debug)]
pub enum Access {
    ComponentAccess(String),
    ArrayAccess(Expression),
}

/// Statements of a template or function body.
#[derive(Debug)]
pub enum Statement {
    IfThenElse {
        meta: Meta,
        cond: Expression,
        if_case: Box<Statement>,
        else_case: Option<Box<Statement>>,
    },
    While { meta: Meta, cond: Expression, stmt: Box<Statement> },
    Return { meta: Meta, value: Expression },
    InitializationBlock { meta: Meta, xtype: VariableType, initializations: Vec<Statement> },
    Declaration {
        meta: Meta,
        xtype: VariableType,
        name: String,
        dimensions: Vec<Expression>,
        concrete_dimensions: Vec<usize>,
    },
    Substitution {
        meta: Meta,
        var: String,
        access: Vec<Access>,
        rhe: Expression,
        is_initialization: bool,
    },
    UnderscoreSubstitution { meta: Meta, rhe: Expression },
    Block { meta: Meta, stmts: Vec<Statement> },
}

/// A statement seen as a mathematical tree: child lists become sequences.
pub enum StmtV {
    IfThenElse { meta: Meta, cond: Expression, if_case: Box<StmtV>, else_case: Option<Box<StmtV>> },
    While { meta: Meta, cond: Expression, stmt: Box<StmtV> },
    Return { meta: Meta, value: Expression },
    InitializationBlock { meta: Meta, xtype: VariableType, initializations: Seq<StmtV> },
    Declaration {
        meta: Meta,
        xtype: VariableType,
        name: Seq<char>,
        dimensions: Vec<Expression>,
        concrete_dimensions: Seq<usize>,
    },
    Substitution {
        meta: Meta,
        var: Seq<char>,
        access: Vec<Access>,
        rhe: Expression,
        is_initialization: bool,
    },
    UnderscoreSubstitution { meta: Meta, rhe: Expression },
    Block { meta: Meta, stmts: Seq<StmtV> },
}

impl Expression {
    pub open spec fn is_number_spec(&self) -> bool {
        self is Number
    }

    pub open spec fn is_bus_call_spec(&self) -> bool {
        self is BusCall
    }

    /// A uniform array whose repeated value is a bus call, at any depth.
    pub open spec fn is_bus_call_array_spec(&self) -> bool
        decreases self,
    {
        match self {
            Expression::UniformArray { value, .. } => value.is_bus_call_spec()
                || value.is_bus_call_array_spec(),
            _ => false,
        }
    }

    pub fn is_number(&self) -> (r: bool)
        ensures
            r == self.is_number_spec(),
    {
        matches!(self, Expression::Number(..))
    }

    pub fn is_bus_call(&self) -> (r: bool)
        ensures
            r == self.is_bus_call_spec(),
    {
        matches!(self, Expression::BusCall { .. })
    }

    pub fn is_bus_call_array(&self) -> (r: bool)
        ensures
            r == self.is_bus_call_array_spec(),
        decreases self,
    {
        match self {
            Expression::UniformArray { value, .. } => value.is_bus_call() || value.is_bus_call_array(),
            _ => false,
        }
    }
}

/// View of a list of statements.
pub open spec fn stmts_view(ss: Seq<Statement>) -> Seq<StmtV>
    decreases ss,
{
    if ss.len() == 0 {
        Seq::empty()
    } else {
        stmts_view(ss.drop_last()).push(ss.last().view())
    }
}

pub proof fn lemma_stmts_view_push(s: Seq<Statement>, x: Statement)
    ensures
        stmts_view(s.push(x)) == stmts_view(s).push(x@),
{
    assert(s.push(x).drop_last() =~= s);
}

impl Statement {
    pub open spec fn view(&self) -> StmtV
        decreases self,
    {
        match self {
            Statement::IfThenElse { meta, cond, if_case, else_case } => StmtV::IfThenElse {
                meta: *meta,
                cond: *cond,
                if_case: Box::new((**if_case).view()),
                else_case: match else_case {
                    Some(e) => Some(Box::new((**e).view())),
                    None => None,
                },
            },
            Statement::While { meta, cond, stmt } => StmtV::While {
                meta: *meta,
                cond: *cond,
                stmt: Box::new((**stmt).view()),
            },
            Statement::Return { meta, value } => StmtV::Return { meta: *meta, value: *value },
            Statement::InitializationBlock { meta, xtype, initializations } =>
                StmtV::InitializationBlock {
                    meta: *meta,
                    xtype: *xtype,
                    initializations: stmts_view(initializations@),
                },
            Statement::Declaration { meta, xtype, name, dimensions, concrete_dimensions } =>
                StmtV::Declaration {
                    meta: *meta,
                    xtype: *xtype,
                    name: name@,
                    dimensions: *dimensions,
                    concrete_dimensions: concrete_dimensions@,
                },
            Statement::Substitution { meta, var, access, rhe, is_initialization } =>
                StmtV::Substitution {
                    meta: *meta,
                    var: var@,
                    access: *access,
                    rhe: *rhe,
                    is_initialization: *is_initialization,
                },
            Statement::UnderscoreSubstitution { meta, rhe } => StmtV::UnderscoreSubstitution {
                meta: *meta,
                rhe: *rhe,
            },
            Statement::Block { meta, stmts } => StmtV::Block { meta: *meta, stmts: stmts_view(stmts@) },
        }
    }
}

} // verus!
