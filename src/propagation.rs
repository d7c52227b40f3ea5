use vstd::prelude::*;

use crate::ast::{lemma_stmts_view_push, stmts_view, Expression, Meta, Statement, StmtV, VariableType};
use crate::bignum::BigNum;
use crate::dimension::{
    all_literal_dims_only,
    as_size,
    expression_reports,
    literal_dims_only,
    expression_rewritten,
    lemma_template_constant_value,
    literal_dimension,
    report_invalid_dimension,
    treat_dimension,
    treat_expression,
};
use crate::literal::{constant_value, is_constant_expression, values_view};
use crate::program::{
    Argument,
    Binding,
    ConstantInterpreter,
    Environment,
    FunctionData,
    TemplateInstance,
};
use crate::report::{extends, lemma_extends_push, lemma_extends_refl, lemma_extends_trans, Report};
use crate::table::{ConstantTable, TableView, UsedNames};

verus! {

/// The binding that an argument becomes in an environment.
fn argument_into_slice(argument: &Argument) -> (r: Binding)
    ensures
        r@ == (argument.name@, argument.lengths@, values_view(argument.values@)),
{
    let mut values: Vec<BigNum> = Vec::new();
    let mut i: usize = 0;
    while i < argument.values.len()
        invariant
            0 <= i <= argument.values@.len(),
            values_view(values@) == values_view(argument.values@).subrange(0, i as int),
        decreases argument.values@.len() - i,
    {
        let ghost before = values@;
        values.push(argument.values[i].duplicate());
        assert(values_view(values@) =~= values_view(before).push(argument.values@[i as int]@));
        assert(values_view(argument.values@).subrange(0, i + 1) =~= values_view(
            argument.values@,
        ).subrange(0, i as int).push(argument.values@[i as int]@));
        i = i + 1;
    }
    assert(values_view(argument.values@).subrange(0, i as int) =~= values_view(argument.values@));
    let dimensions = argument.lengths.clone();
    assert(dimensions@ =~= argument.lengths@);
    Binding { name: argument.name.clone(), dimensions, values }
}

/// The environment in which a template body's constant expressions are
/// evaluated: each argument bound to its values and shape, in header order.
pub fn transform_header_into_environment(header: &[Argument]) -> (r: Environment)
    ensures
        r@.len() == header@.len(),
        forall|i: int|
            0 <= i < header@.len() ==> #[trigger] r@[i] == (
                header@[i].name@,
                header@[i].lengths@,
                values_view(header@[i].values@),
            ),
{
    let mut execution_environment = Environment::new();
    let mut i: usize = 0;
    while i < header.len()
        invariant
            0 <= i <= header@.len(),
            execution_environment@.len() == i,
            forall|j: int|
                0 <= j < i ==> #[trigger] execution_environment@[j] == (
                    header@[j].name@,
                    header@[j].lengths@,
                    values_view(header@[j].values@),
                ),
        decreases header@.len() - i,
    {
        let slice = argument_into_slice(&header[i]);
        execution_environment.add_variable(slice);
        i = i + 1;
    }
    execution_environment
}

/// Number of scalars in an array of the given dimensions.
pub open spec fn dims_product(d: Seq<usize>) -> int
    decreases d.len(),
{
    if d.len() == 0 {
        1
    } else {
        dims_product(d.drop_last()) * d.last()
    }
}

proof fn lemma_dims_product_nonneg(d: Seq<usize>)
    ensures
        dims_product(d) >= 0,
    decreases d.len(),
{
    if d.len() > 0 {
        lemma_dims_product_nonneg(d.drop_last());
        let p = dims_product(d.drop_last());
        let l = d.last() as int;
        assert(p * l >= 0) by (nonlinear_arith)
            requires
                p >= 0,
                l >= 0,
        ;
    }
}

/// `n` zeros.
pub open spec fn zeros(n: nat) -> Seq<int> {
    Seq::new(n, |i: int| 0)
}

/// `v`, with zeros after it up to length `n`.
pub open spec fn pad(v: Seq<int>, n: nat) -> Seq<int> {
    if v.len() < n {
        v + zeros((n - v.len()) as nat)
    } else {
        v
    }
}

/// The sizes of a list of literal dimensions.
pub open spec fn literal_sizes(dims: Seq<Expression>) -> Seq<usize> {
    Seq::new(dims.len(), |i: int| literal_dimension(dims[i])->0)
}

/// `conc` is a successful resolution of `dims`: one size for each, literals
/// read as they stand, only literals inside a template, and a total size
/// that fits.
pub open spec fn dims_resolved(dims: Seq<Expression>, conc: Seq<usize>, inside_template: bool) -> bool {
    &&& conc.len() == dims.len()
    &&& forall|i: int|
        0 <= i < dims.len() && (#[trigger] dims[i]) is Number ==> literal_dimension(dims[i]) == Some(
            conc[i],
        )
    &&& inside_template ==> forall|i: int| 0 <= i < dims.len() ==> (#[trigger] dims[i]) is Number
    &&& dims_product(conc) <= usize::MAX
}

/// How the table and the set of used names may change over a walk: names
/// are only added to the set; an evicted name never comes back; a name enters
/// the table only when it is declared for the first time.
pub open spec fn scope_advanced(t0: TableView, u0: Set<Seq<char>>, t1: TableView, u1: Set<Seq<char>>) -> bool {
    &&& u0.subset_of(u1)
    &&& t1.dom().subset_of(u1)
    &&& forall|n: Seq<char>| u0.contains(n) && !t0.contains_key(n) ==> !t1.contains_key(n)
    &&& forall|n: Seq<char>| t1.contains_key(n) && !t0.contains_key(n) ==> !u0.contains(n)
}

proof fn lemma_scope_refl(t: TableView, u: Set<Seq<char>>)
    requires
        t.dom().subset_of(u),
    ensures
        scope_advanced(t, u, t, u),
{
}

proof fn lemma_scope_trans(
    t0: TableView,
    u0: Set<Seq<char>>,
    t1: TableView,
    u1: Set<Seq<char>>,
    t2: TableView,
    u2: Set<Seq<char>>,
)
    requires
        scope_advanced(t0, u0, t1, u1),
        scope_advanced(t1, u1, t2, u2),
    ensures
        scope_advanced(t0, u0, t2, u2),
{
}

/// What the used names and the table of a scope are, as a pair.
pub type ScopeView = (TableView, Set<Seq<char>>);

/// The dimensions that a declaration inside a template gets: its literal
/// sizes where all of them are literals that fit and so does their product,
/// and none otherwise.
pub open spec fn template_dims(dims: Seq<Expression>) -> Seq<usize> {
    if (forall|i: int| 0 <= i < dims.len() ==> (#[trigger] literal_dimension(dims[i])) is Some)
        && dims_product(literal_sizes(dims)) <= usize::MAX {
        literal_sizes(dims)
    } else {
        Seq::empty()
    }
}

/// The scope after a declaration of `name` with dimensions `conc`: only a
/// `Var` counts; its first declaration records zeros, a later one evicts it.
pub open spec fn declare(st: ScopeView, xtype: VariableType, name: Seq<char>, conc: Seq<usize>) -> ScopeView {
    if xtype != VariableType::Var {
        st
    } else if st.1.contains(name) {
        (st.0.remove(name), st.1)
    } else {
        (st.0.insert(name, (conc, zeros(dims_product(conc) as nat))), st.1.insert(name))
    }
}

/// The table after a substitution into `var`.
pub open spec fn assign(
    t: TableView,
    var: Seq<char>,
    indexed: bool,
    is_initialization: bool,
    rhe: Expression,
) -> TableView {
    if !t.contains_key(var) {
        t
    } else if !is_initialization || indexed {
        t.remove(var)
    } else {
        match constant_value(rhe) {
            None => t.remove(var),
            Some(v) => t.insert(var, (t[var].0, pad(v, t[var].1.len()))),
        }
    }
}

/// One invalid-array-size report at `meta` for each dimension that is not a
/// literal that fits, in order.
pub open spec fn dimension_reports(dims: Seq<Expression>, meta: Meta) -> Seq<Report>
    decreases dims.len(),
{
    if dims.len() == 0 {
        Seq::empty()
    } else {
        dimension_reports(dims.drop_last(), meta) + if literal_dimension(dims.last()) is Some {
            Seq::empty()
        } else {
            seq![Report::invalid_array_size_spec(meta)]
        }
    }
}

/// The reports of a declaration where the interpreter is not asked: one per
/// dimension that is not a literal that fits, or else one if the total size
/// does not fit.
pub open spec fn declaration_reports(meta: Meta, xtype: VariableType, dims: Seq<Expression>) -> Seq<
    Report,
> {
    if xtype == VariableType::AnonymousComponent {
        Seq::empty()
    } else if dimension_reports(dims, meta).len() == 0 && dims_product(literal_sizes(dims))
        > usize::MAX {
        seq![Report::invalid_array_size_spec(meta)]
    } else {
        dimension_reports(dims, meta)
    }
}

/// A declaration whose dimensions are resolved without the interpreter.
pub open spec fn declaration_literal(xtype: VariableType, dims: Seq<Expression>) -> bool {
    xtype == VariableType::AnonymousComponent || forall|i: int|
        0 <= i < dims.len() ==> (#[trigger] dims[i]) is Number
}

/// Every dimension that the walk over `s` resolves is a literal, so the
/// interpreter is never asked.
pub open spec fn literal_dims_everywhere(s: StmtV) -> bool
    decreases s, 1int,
{
    match s {
        StmtV::Block { stmts, .. } => all_literal_dims_everywhere(stmts, false),
        StmtV::InitializationBlock { initializations, .. } => all_literal_dims_everywhere(
            initializations,
            true,
        ),
        StmtV::IfThenElse { if_case, else_case, .. } => literal_dims_everywhere(*if_case)
            && match else_case {
            Some(e) => literal_dims_everywhere(*e),
            None => true,
        },
        StmtV::While { stmt, .. } => literal_dims_everywhere(*stmt),
        StmtV::Declaration { xtype, dimensions, .. } => declaration_literal(xtype, dimensions@),
        StmtV::Substitution { rhe, .. } => literal_dims_only(rhe),
        _ => true,
    }
}

pub open spec fn all_literal_dims_everywhere(ss: Seq<StmtV>, init_block: bool) -> bool
    decreases ss, 0int,
{
    ss.len() == 0 || (all_literal_dims_everywhere(ss.drop_last(), init_block) && (init_block
        && !(ss.last() is Declaration || ss.last() is Substitution) || literal_dims_everywhere(
        ss.last(),
    )))
}

/// The reports of the walk over `s` where the interpreter is not asked, in
/// walk order.
pub open spec fn static_reports(s: StmtV) -> Seq<Report>
    decreases s, 1int,
{
    match s {
        StmtV::Block { stmts, .. } => static_reports_list(stmts, false),
        StmtV::InitializationBlock { initializations, .. } => static_reports_list(initializations, true),
        StmtV::IfThenElse { if_case, else_case, .. } => static_reports(*if_case) + match else_case {
            Some(e) => static_reports(*e),
            None => Seq::empty(),
        },
        StmtV::While { stmt, .. } => static_reports(*stmt),
        StmtV::Declaration { meta, xtype, dimensions, .. } => declaration_reports(
            meta,
            xtype,
            dimensions@,
        ),
        StmtV::Substitution { rhe, .. } => expression_reports(rhe),
        _ => Seq::empty(),
    }
}

pub open spec fn static_reports_list(ss: Seq<StmtV>, init_block: bool) -> Seq<Report>
    decreases ss, 0int,
{
    if ss.len() == 0 {
        Seq::empty()
    } else {
        static_reports_list(ss.drop_last(), init_block) + if init_block && !(ss.last() is Declaration
            || ss.last() is Substitution) {
            Seq::empty()
        } else {
            static_reports(ss.last())
        }
    }
}

/// The scope that a rewritten statement stands for: each declaration with
/// the concrete dimensions it was given, each substitution with its rewritten
/// right-hand side, in walk order.
pub open spec fn scope_walk(s: StmtV, st: ScopeView) -> ScopeView
    decreases s, 1int,
{
    match s {
        StmtV::Block { stmts, .. } => scope_walk_list(stmts, false, st),
        StmtV::InitializationBlock { initializations, .. } => scope_walk_list(initializations, true, st),
        StmtV::IfThenElse { if_case, else_case, .. } => {
            let st1 = scope_walk(*if_case, st);
            match else_case {
                Some(e) => scope_walk(*e, st1),
                None => st1,
            }
        },
        StmtV::While { stmt, .. } => scope_walk(*stmt, st),
        StmtV::Declaration { xtype, name, concrete_dimensions, .. } => declare(
            st,
            xtype,
            name,
            concrete_dimensions,
        ),
        StmtV::Substitution { var, access, rhe, is_initialization, .. } => (
            assign(st.0, var, access@.len() > 0, is_initialization, rhe),
            st.1,
        ),
        _ => st,
    }
}

/// `scope_walk` over a list; in an initialization block only declarations
/// and substitutions count.
pub open spec fn scope_walk_list(ss: Seq<StmtV>, init_block: bool, st: ScopeView) -> ScopeView
    decreases ss, 0int,
{
    if ss.len() == 0 {
        st
    } else {
        let st1 = scope_walk_list(ss.drop_last(), init_block, st);
        let x = ss.last();
        if !init_block || x is Declaration || x is Substitution {
            scope_walk(x, st1)
        } else {
            st1
        }
    }
}

/// The scope after constant propagation over a statement of a template body.
pub open spec fn template_walk(s: StmtV, st: ScopeView) -> ScopeView
    decreases s, 1int,
{
    match s {
        StmtV::Block { stmts, .. } => template_walk_list(stmts, false, st),
        StmtV::InitializationBlock { initializations, .. } => template_walk_list(
            initializations,
            true,
            st,
        ),
        StmtV::IfThenElse { if_case, else_case, .. } => {
            let st1 = template_walk(*if_case, st);
            match else_case {
                Some(e) => template_walk(*e, st1),
                None => st1,
            }
        },
        StmtV::While { stmt, .. } => template_walk(*stmt, st),
        StmtV::Declaration { xtype, name, dimensions, .. } => declare(
            st,
            xtype,
            name,
            template_dims(dimensions@),
        ),
        StmtV::Substitution { var, access, rhe, is_initialization, .. } => (
            assign(st.0, var, access@.len() > 0, is_initialization, rhe),
            st.1,
        ),
        _ => st,
    }
}

/// The scope after constant propagation over a list of statements of a
/// template body; in an initialization block only declarations and
/// substitutions count.
pub open spec fn template_walk_list(ss: Seq<StmtV>, init_block: bool, st: ScopeView) -> ScopeView
    decreases ss, 0int,
{
    if ss.len() == 0 {
        st
    } else {
        let st1 = template_walk_list(ss.drop_last(), init_block, st);
        let x = ss.last();
        if !init_block || x is Declaration || x is Substitution {
            template_walk(x, st1)
        } else {
            st1
        }
    }
}

proof fn lemma_template_dims(dims: Seq<Expression>, conc: Seq<usize>)
    requires
        dims_resolved(dims, conc, true),
    ensures
        conc == template_dims(dims),
{
    assert(conc =~= literal_sizes(dims));
    assert forall|i: int| 0 <= i < dims.len() implies (#[trigger] literal_dimension(dims[i])) is Some by {
        assert(dims[i] is Number);
    }
}

/// A first declaration of a `Var` followed by an initialization of it with a
/// closed literal leaves in the table the declared dimensions and that
/// literal's flattened value, padded with zeros to the declared size.
pub proof fn lemma_declared_then_initialized(st: ScopeView, d: StmtV, a: StmtV)
    requires
        d is Declaration,
        d->Declaration_xtype == VariableType::Var,
        !st.1.contains(d->Declaration_name),
        a is Substitution,
        a->Substitution_var == d->Declaration_name,
        a->Substitution_is_initialization,
        a->Substitution_access@.len() == 0,
        constant_value(a->Substitution_rhe) is Some,
    ensures
        ({
            let name = d->Declaration_name;
            let conc = template_dims(d->Declaration_dimensions@);
            let t = template_walk_list(seq![d, a], false, st).0;
            &&& t.contains_key(name)
            &&& t[name] == (
                conc,
                pad(constant_value(a->Substitution_rhe)->0, dims_product(conc) as nat),
            )
        }),
{
    let ss = seq![d, a];
    assert(ss.drop_last() =~= seq![d]);
    assert(ss.last() == a);
    assert(seq![d].drop_last() =~= Seq::<StmtV>::empty());
    assert(seq![d].last() == d);
    assert(template_walk_list(Seq::<StmtV>::empty(), false, st) == st);
    let st1 = template_walk(d, st);
    assert(template_walk_list(seq![d], false, st) == st1);
    let name = d->Declaration_name;
    let conc = template_dims(d->Declaration_dimensions@);
    assert(st1.0 == st.0.insert(name, (conc, zeros(dims_product(conc) as nat))));
    assert(template_walk_list(ss, false, st) == template_walk(a, st1));
}

/// A second declaration of a `Var` evicts it from the table, whatever the
/// dimensions of either declaration.
pub proof fn lemma_redeclaration_evicts(st: ScopeView, name: Seq<char>, c1: Seq<usize>, c2: Seq<usize>)
    ensures
        !declare(declare(st, VariableType::Var, name, c1), VariableType::Var, name, c2).0.contains_key(
            name,
        ),
        declare(declare(st, VariableType::Var, name, c1), VariableType::Var, name, c2).1.contains(name),
{
}

/// A name that was declared and is no longer in the table never comes back
/// to it for the rest of the scope.
pub proof fn lemma_evicted_stays_evicted(s: StmtV, st: ScopeView, name: Seq<char>)
    requires
        st.1.contains(name),
        !st.0.contains_key(name),
    ensures
        template_walk(s, st).1.contains(name),
        !template_walk(s, st).0.contains_key(name),
    decreases s, 1int,
{
    match s {
        StmtV::Block { stmts, .. } => {
            lemma_evicted_stays_evicted_list(stmts, false, st, name);
        },
        StmtV::InitializationBlock { initializations, .. } => {
            lemma_evicted_stays_evicted_list(initializations, true, st, name);
        },
        StmtV::IfThenElse { if_case, else_case, .. } => {
            lemma_evicted_stays_evicted(*if_case, st, name);
            if let Some(e) = else_case {
                lemma_evicted_stays_evicted(*e, template_walk(*if_case, st), name);
            }
        },
        StmtV::While { stmt, .. } => {
            lemma_evicted_stays_evicted(*stmt, st, name);
        },
        _ => {},
    }
}

proof fn lemma_evicted_stays_evicted_list(ss: Seq<StmtV>, init_block: bool, st: ScopeView, name: Seq<char>)
    requires
        st.1.contains(name),
        !st.0.contains_key(name),
    ensures
        template_walk_list(ss, init_block, st).1.contains(name),
        !template_walk_list(ss, init_block, st).0.contains_key(name),
    decreases ss, 0int,
{
    if ss.len() > 0 {
        lemma_evicted_stays_evicted_list(ss.drop_last(), init_block, st, name);
        lemma_evicted_stays_evicted(
            ss.last(),
            template_walk_list(ss.drop_last(), init_block, st),
            name,
        );
    }
}

/// An indexed write to a variable evicts it from the table.
pub proof fn lemma_indexed_write_evicts(t: TableView, var: Seq<char>, is_initialization: bool, rhe: Expression)
    ensures
        !assign(t, var, true, is_initialization, rhe).contains_key(var),
{
}

/// A write whose right-hand side is not a closed literal evicts its target
/// from the table.
pub proof fn lemma_open_write_evicts(
    t: TableView,
    var: Seq<char>,
    indexed: bool,
    is_initialization: bool,
    rhe: Expression,
)
    requires
        constant_value(rhe) is None,
    ensures
        !assign(t, var, indexed, is_initialization, rhe).contains_key(var),
{
}

proof fn lemma_walk_used_grows(s: StmtV, st: ScopeView)
    ensures
        st.1.subset_of(template_walk(s, st).1),
    decreases s, 1int,
{
    match s {
        StmtV::Block { stmts, .. } => {
            lemma_walk_list_used_grows(stmts, false, st);
        },
        StmtV::InitializationBlock { initializations, .. } => {
            lemma_walk_list_used_grows(initializations, true, st);
        },
        StmtV::IfThenElse { if_case, else_case, .. } => {
            lemma_walk_used_grows(*if_case, st);
            if let Some(e) = else_case {
                lemma_walk_used_grows(*e, template_walk(*if_case, st));
            }
        },
        StmtV::While { stmt, .. } => {
            lemma_walk_used_grows(*stmt, st);
        },
        _ => {},
    }
}

proof fn lemma_walk_list_used_grows(ss: Seq<StmtV>, init_block: bool, st: ScopeView)
    ensures
        st.1.subset_of(template_walk_list(ss, init_block, st).1),
    decreases ss, 0int,
{
    if ss.len() > 0 {
        lemma_walk_list_used_grows(ss.drop_last(), init_block, st);
        lemma_walk_used_grows(ss.last(), template_walk_list(ss.drop_last(), init_block, st));
    }
}

proof fn lemma_walk_list_concat(a: Seq<StmtV>, b: Seq<StmtV>, init_block: bool, st: ScopeView)
    ensures
        template_walk_list(a + b, init_block, st) == template_walk_list(
            b,
            init_block,
            template_walk_list(a, init_block, st),
        ),
    decreases b.len(),
{
    if b.len() == 0 {
        assert(a + b =~= a);
    } else {
        assert((a + b).drop_last() =~= a + b.drop_last());
        assert((a + b).last() == b.last());
        lemma_walk_list_concat(a, b.drop_last(), init_block, st);
    }
}

proof fn lemma_walk_list_single(x: StmtV, st: ScopeView)
    ensures
        template_walk_list(seq![x], false, st) == template_walk(x, st),
{
    assert(seq![x].drop_last() =~= Seq::<StmtV>::empty());
    assert(seq![x].last() == x);
    assert(template_walk_list(Seq::<StmtV>::empty(), false, st) == st);
}

/// A name declared twice as a `Var` among the statements of a block is not
/// in the table after the block, whatever else the block holds.
pub proof fn lemma_declared_twice_not_tracked(ss: Seq<StmtV>, i: int, j: int, st: ScopeView)
    requires
        0 <= i < j < ss.len(),
        ss[i] is Declaration,
        ss[j] is Declaration,
        ss[i]->Declaration_xtype == VariableType::Var,
        ss[j]->Declaration_xtype == VariableType::Var,
        ss[i]->Declaration_name == ss[j]->Declaration_name,
    ensures
        !template_walk_list(ss, false, st).0.contains_key(ss[i]->Declaration_name),
{
    let x = ss[i]->Declaration_name;
    let pre = ss.subrange(0, i);
    let mid = ss.subrange(i + 1, j);
    let post = ss.subrange(j + 1, ss.len() as int);
    assert(ss =~= pre + seq![ss[i]] + mid + seq![ss[j]] + post);
    let s0 = template_walk_list(pre, false, st);
    let p1 = pre + seq![ss[i]];
    lemma_walk_list_concat(pre, seq![ss[i]], false, st);
    lemma_walk_list_single(ss[i], s0);
    let s1 = template_walk_list(p1, false, st);
    assert(s1 == template_walk(ss[i], s0));
    assert(s1.1.contains(x));
    let p2 = p1 + mid;
    lemma_walk_list_concat(p1, mid, false, st);
    lemma_walk_list_used_grows(mid, false, s1);
    let s2 = template_walk_list(p2, false, st);
    assert(s2.1.contains(x));
    let p3 = p2 + seq![ss[j]];
    lemma_walk_list_concat(p2, seq![ss[j]], false, st);
    lemma_walk_list_single(ss[j], s2);
    let s3 = template_walk_list(p3, false, st);
    assert(s3 == template_walk(ss[j], s2));
    assert(!s3.0.contains_key(x) && s3.1.contains(x));
    lemma_walk_list_concat(p3, post, false, st);
    lemma_evicted_stays_evicted_list(post, false, s3, x);
    assert(p3 + post =~= ss);
}

/// Nothing in `s` declares or assigns `x`.
pub open spec fn untouched(s: StmtV, x: Seq<char>) -> bool
    decreases s, 1int,
{
    match s {
        StmtV::Block { stmts, .. } => untouched_list(stmts, x),
        StmtV::InitializationBlock { initializations, .. } => untouched_list(initializations, x),
        StmtV::IfThenElse { if_case, else_case, .. } => untouched(*if_case, x) && match else_case {
            Some(e) => untouched(*e, x),
            None => true,
        },
        StmtV::While { stmt, .. } => untouched(*stmt, x),
        StmtV::Declaration { name, .. } => name != x,
        StmtV::Substitution { var, .. } => var != x,
        _ => true,
    }
}

pub open spec fn untouched_list(ss: Seq<StmtV>, x: Seq<char>) -> bool
    decreases ss, 0int,
{
    ss.len() == 0 || (untouched_list(ss.drop_last(), x) && untouched(ss.last(), x))
}

proof fn lemma_untouched_walk(s: StmtV, x: Seq<char>, st: ScopeView)
    requires
        untouched(s, x),
    ensures
        template_walk(s, st).0.contains_key(x) == st.0.contains_key(x),
        st.0.contains_key(x) ==> template_walk(s, st).0[x] == st.0[x],
        template_walk(s, st).1.contains(x) == st.1.contains(x),
    decreases s, 1int,
{
    match s {
        StmtV::Block { stmts, .. } => {
            lemma_untouched_walk_list(stmts, false, x, st);
        },
        StmtV::InitializationBlock { initializations, .. } => {
            lemma_untouched_walk_list(initializations, true, x, st);
        },
        StmtV::IfThenElse { if_case, else_case, .. } => {
            lemma_untouched_walk(*if_case, x, st);
            if let Some(e) = else_case {
                lemma_untouched_walk(*e, x, template_walk(*if_case, st));
            }
        },
        StmtV::While { stmt, .. } => {
            lemma_untouched_walk(*stmt, x, st);
        },
        _ => {},
    }
}

proof fn lemma_untouched_walk_list(ss: Seq<StmtV>, init_block: bool, x: Seq<char>, st: ScopeView)
    requires
        untouched_list(ss, x),
    ensures
        template_walk_list(ss, init_block, st).0.contains_key(x) == st.0.contains_key(x),
        st.0.contains_key(x) ==> template_walk_list(ss, init_block, st).0[x] == st.0[x],
        template_walk_list(ss, init_block, st).1.contains(x) == st.1.contains(x),
    decreases ss, 0int,
{
    if ss.len() > 0 {
        let st1 = template_walk_list(ss.drop_last(), init_block, st);
        lemma_untouched_walk_list(ss.drop_last(), init_block, x, st);
        lemma_untouched_walk(ss.last(), x, st1);
    }
}

/// `s` initializes `x` with a closed literal of at most `n` values.
pub open spec fn literal_initialization(s: StmtV, x: Seq<char>, n: int) -> bool {
    &&& s is Substitution
    &&& s->Substitution_var == x
    &&& s->Substitution_access@.len() == 0
    &&& s->Substitution_is_initialization
    &&& constant_value(s->Substitution_rhe) is Some
    &&& constant_value(s->Substitution_rhe)->0.len() <= n
}

/// The flattened value of the last literal initialization of `x` in `ss`,
/// and nothing where there is none.
pub open spec fn last_initialization(ss: Seq<StmtV>, x: Seq<char>) -> Seq<int>
    decreases ss.len(),
{
    if ss.len() == 0 {
        Seq::empty()
    } else if ss.last() is Substitution && ss.last()->Substitution_var == x {
        constant_value(ss.last()->Substitution_rhe)->0
    } else {
        last_initialization(ss.drop_last(), x)
    }
}

/// After a first declaration of a `Var` `x`, statements that leave `x` alone
/// and initializations of `x` with closed literals that fit leave in the
/// table the declared dimensions and the value of the last initialization,
/// padded with zeros to the declared size.
pub proof fn lemma_last_initialization_kept(d: StmtV, rest: Seq<StmtV>, st: ScopeView)
    requires
        d is Declaration,
        d->Declaration_xtype == VariableType::Var,
        !st.1.contains(d->Declaration_name),
        forall|k: int|
            0 <= k < rest.len() ==> untouched(#[trigger] rest[k], d->Declaration_name)
                || literal_initialization(
                rest[k],
                d->Declaration_name,
                dims_product(template_dims(d->Declaration_dimensions@)),
            ),
    ensures
        ({
            let x = d->Declaration_name;
            let conc = template_dims(d->Declaration_dimensions@);
            let t = template_walk_list(seq![d] + rest, false, st).0;
            &&& t.contains_key(x)
            &&& t[x] == (conc, pad(last_initialization(rest, x), dims_product(conc) as nat))
            &&& last_initialization(rest, x).len() <= dims_product(conc)
        }),
    decreases rest.len(),
{
    let x = d->Declaration_name;
    let conc = template_dims(d->Declaration_dimensions@);
    let p = dims_product(conc);
    lemma_dims_product_nonneg(conc);
    if rest.len() == 0 {
        assert(seq![d] + rest =~= seq![d]);
        lemma_walk_list_single(d, st);
        assert(pad(Seq::<int>::empty(), p as nat) =~= zeros(p as nat));
        assert(template_walk(d, st) == declare(st, VariableType::Var, x, conc));
    } else {
        let r0 = rest.drop_last();
        assert forall|k: int| 0 <= k < r0.len() implies untouched(#[trigger] r0[k], x)
            || literal_initialization(r0[k], x, p) by {
            assert(r0[k] == rest[k]);
        }
        lemma_last_initialization_kept(d, r0, st);
        assert((seq![d] + rest).drop_last() =~= seq![d] + r0);
        assert((seq![d] + rest).last() == rest.last());
        let st1 = template_walk_list(seq![d] + r0, false, st);
        let last = rest.last();
        assert(template_walk_list(seq![d] + rest, false, st) == template_walk(last, st1));
        assert(untouched(rest[rest.len() - 1], x) || literal_initialization(rest[rest.len() - 1], x, p));
        if untouched(last, x) {
            lemma_untouched_walk(last, x, st1);
        } else {
            let v = constant_value(last->Substitution_rhe)->0;
            let prev = last_initialization(r0, x);
            assert(pad(prev, p as nat).len() == p);
            assert(st1.0[x].1.len() == p);
            assert(template_walk(last, st1).0 == st1.0.insert(x, (conc, pad(v, p as nat))));
            assert(last_initialization(rest, x) == v);
        }
    }
}

/// A vector of `n` zero literals.
fn zero_values(n: usize) -> (r: Vec<BigNum>)
    ensures
        values_view(r@) == zeros(n as nat),
{
    let mut r: Vec<BigNum> = Vec::new();
    let mut i: usize = 0;
    while i < n
        invariant
            0 <= i <= n,
            values_view(r@) == zeros(i as nat),
        decreases n - i,
    {
        let ghost before = r@;
        r.push(BigNum::zero());
        assert(values_view(r@) =~= values_view(before).push(0));
        assert(values_view(r@) =~= zeros((i + 1) as nat));
        i = i + 1;
    }
    r
}

/// The product of `dims`, where it fits.
fn checked_product(dims: &Vec<usize>) -> (r: Option<usize>)
    ensures
        r == as_size(dims_product(dims@)),
{
    let mut size: usize = 1;
    let mut k: usize = 0;
    let mut fits = true;
    assert(dims@.subrange(0, 0) =~= Seq::<usize>::empty());
    while k < dims.len()
        invariant
            0 <= k <= dims@.len(),
            fits ==> size as int == dims_product(dims@.subrange(0, k as int)),
            !fits ==> dims_product(dims@.subrange(0, k as int)) > usize::MAX,
        decreases dims@.len() - k,
    {
        let ghost p = dims_product(dims@.subrange(0, k as int));
        assert(dims@.subrange(0, k + 1).drop_last() =~= dims@.subrange(0, k as int));
        if fits {
            match size.checked_mul(dims[k]) {
                Some(v) => {
                    size = v;
                },
                None => {
                    fits = false;
                },
            }
        } else {
            if dims[k] == 0 {
                fits = true;
                size = 0;
            } else {
                assert(p * dims@[k as int] >= p) by (nonlinear_arith)
                    requires
                        dims@[k as int] >= 1,
                        p > 0,
                ;
            }
        }
        k = k + 1;
    }
    assert(dims@.subrange(0, k as int) =~= dims@);
    if fits {
        Some(size)
    } else {
        None
    }
}

/// Every dimension of a declaration resolved.
pub open spec fn all_resolved(res: Seq<Option<usize>>) -> bool {
    forall|i: int| 0 <= i < res.len() ==> (#[trigger] res[i]) is Some
}

/// The sizes of fully resolved dimensions.
pub open spec fn resolved_sizes(res: Seq<Option<usize>>) -> Seq<usize> {
    Seq::new(res.len(), |i: int| res[i]->0)
}

/// `res` is a possible outcome of resolving `dims`: one entry per dimension,
/// a literal resolved as it stands, and inside a template nothing else
/// resolved.
pub open spec fn consistent_resolution(dims: Seq<Expression>, res: Seq<Option<usize>>, inside_template: bool) -> bool {
    &&& res.len() == dims.len()
    &&& forall|i: int|
        0 <= i < dims.len() ==> ((#[trigger] dims[i]) is Number ==> res[i] == literal_dimension(dims[i]))
            && (inside_template && !(dims[i] is Number) ==> res[i] is None)
}

/// The shape that a resolution gives a declaration: the sizes where all
/// resolved and their product fits, and the empty shape otherwise.
pub open spec fn shape_of(res: Seq<Option<usize>>) -> Seq<usize> {
    if all_resolved(res) && dims_product(resolved_sizes(res)) <= usize::MAX {
        resolved_sizes(res)
    } else {
        Seq::empty()
    }
}

/// The concrete dimensions of a declaration once each dimension's size is
/// known or known to have failed: all the sizes where every dimension
/// resolved and the total size fits, and none otherwise.
pub fn declared_dimensions(resolved: &Vec<Option<usize>>) -> (r: Option<Vec<usize>>)
    ensures
        match r {
            Some(c) => all_resolved(resolved@) && c@ == resolved_sizes(resolved@) && dims_product(c@)
                <= usize::MAX,
            None => !(all_resolved(resolved@) && dims_product(resolved_sizes(resolved@))
                <= usize::MAX),
        },
{
    let mut sizes: Vec<usize> = Vec::new();
    let mut i: usize = 0;
    while i < resolved.len()
        invariant
            0 <= i <= resolved@.len(),
            sizes@.len() == i,
            forall|j: int| 0 <= j < i ==> (#[trigger] resolved@[j]) == Some(sizes@[j]),
        decreases resolved@.len() - i,
    {
        match resolved[i] {
            Some(v) => {
                sizes.push(v);
            },
            None => {
                return None;
            },
        }
        i = i + 1;
    }
    assert(sizes@ =~= resolved_sizes(resolved@));
    match checked_product(&sizes) {
        Some(_) => Some(sizes),
        None => {
            proof {
                lemma_dims_product_nonneg(sizes@);
            }
            None
        },
    }
}

/// Resolves the dimensions of a declaration and, for a `Var`, starts or ends
/// tracking its name: a first declaration records its dimensions and zeros
/// for its contents, a redeclaration evicts the name for good.
fn treat_declaration<I: ConstantInterpreter>(
    stmt: Statement,
    inside_template: bool,
    environment: &Environment,
    interpreter: &I,
    reports: &mut Vec<Report>,
    constants: &mut ConstantTable,
    used_names: &mut UsedNames,
) -> (r: Statement)
    requires
        stmt is Declaration,
        old(constants).wf(),
    ensures
        final(constants).wf(),
        extends(old(reports)@, final(reports)@),
        r is Declaration,
        r->Declaration_meta == stmt->Declaration_meta,
        r->Declaration_xtype == stmt->Declaration_xtype,
        r->Declaration_name == stmt->Declaration_name,
        r->Declaration_dimensions == stmt->Declaration_dimensions,
        ({
            let dims = stmt->Declaration_dimensions@;
            let conc = r->Declaration_concrete_dimensions@;
            let name = stmt->Declaration_name@;
            let xtype = stmt->Declaration_xtype;
            &&& xtype == VariableType::AnonymousComponent ==> conc.len() == 0 && final(reports)@
                == old(reports)@
            &&& xtype != VariableType::AnonymousComponent ==> (dims_resolved(
                dims,
                conc,
                inside_template,
            ) && final(reports)@ == old(reports)@) || (conc.len() == 0 && final(reports)@.len()
                > old(reports)@.len())
            &&& xtype != VariableType::AnonymousComponent && (forall|i: int|
                0 <= i < dims.len() ==> (#[trigger] literal_dimension(dims[i])) is Some)
                && dims_product(literal_sizes(dims)) <= usize::MAX ==> conc == literal_sizes(dims)
            &&& xtype != VariableType::Var ==> final(constants)@ == old(constants)@
                && final(used_names)@ == old(used_names)@
            &&& xtype == VariableType::Var && old(used_names)@.contains(name) ==> final(constants)@
                == old(constants)@.remove(name) && final(used_names)@ == old(used_names)@
            &&& inside_template && xtype != VariableType::AnonymousComponent ==> conc
                == template_dims(dims)
            &&& xtype != VariableType::AnonymousComponent ==> exists|res: Seq<Option<usize>>|
                consistent_resolution(dims, res, inside_template) && conc == shape_of(res)
            &&& inside_template || declaration_literal(xtype, dims) ==> final(reports)@ == old(reports)@ + declaration_reports(stmt->Declaration_meta, xtype, dims)
            &&& xtype == VariableType::Var && !old(used_names)@.contains(name)
                ==> final(used_names)@ == old(used_names)@.insert(name) && final(constants)@ == old(constants)@.insert(
                name,
                (conc, zeros(dims_product(conc) as nat)),
            )
        }),
{
    proof {
        lemma_extends_refl(reports@);
    }
    match stmt {
        Statement::Declaration { meta, xtype, name, dimensions, concrete_dimensions: _ } => {
            if matches!(xtype, VariableType::AnonymousComponent) {
                return Statement::Declaration {
                    meta,
                    xtype,
                    name,
                    dimensions,
                    concrete_dimensions: Vec::new(),
                };
            }
            let ghost r0 = reports@;
            let ghost dims = dimensions@;
            assert(dims.subrange(0, 0) =~= Seq::<Expression>::empty());
            assert(r0 + Seq::<Report>::empty() =~= r0);
            let mut concrete_dimensions: Vec<usize> = Vec::new();
            let mut resolutions: Vec<Option<usize>> = Vec::new();
            let mut failed = false;
            let mut i: usize = 0;
            while i < dimensions.len()
                invariant
                    resolutions@.len() == i,
                    forall|j: int|
                        0 <= j < i ==> ((#[trigger] dims[j]) is Number ==> resolutions@[j]
                            == literal_dimension(dims[j])) && (inside_template && !(dims[j] is Number)
                            ==> resolutions@[j] is None),
                    !failed ==> forall|j: int|
                        0 <= j < i ==> (#[trigger] resolutions@[j]) == Some(concrete_dimensions@[j]),
                    failed ==> !all_resolved(resolutions@),
                    dims == dimensions@,
                    xtype != VariableType::AnonymousComponent,
                    0 <= i <= dims.len(),
                    extends(r0, reports@),
                    !failed ==> reports@ == r0,
                    !failed ==> concrete_dimensions@.len() == i,
                    !failed ==> forall|j: int|
                        0 <= j < i && (#[trigger] dims[j]) is Number ==> literal_dimension(dims[j])
                            == Some(concrete_dimensions@[j]),
                    !failed && inside_template ==> forall|j: int|
                        0 <= j < i ==> (#[trigger] dims[j]) is Number,
                    failed ==> reports@.len() > r0.len(),
                    (forall|j: int| 0 <= j < i ==> (#[trigger] literal_dimension(dims[j])) is Some)
                        ==> !failed,
                    inside_template || declaration_literal(xtype, dims) ==> reports@ == r0
                        + dimension_reports(dims.subrange(0, i as int), meta) && (failed
                        <==> dimension_reports(dims.subrange(0, i as int), meta).len() > 0),
                decreases dims.len() - i,
            {
                let ghost rb = reports@;
                let resolved = treat_dimension(
                    &dimensions[i],
                    inside_template,
                    environment,
                    interpreter,
                    reports,
                );
                proof {
                    if inside_template || declaration_literal(xtype, dims) {
                        assert(dims[i as int] is Number || inside_template);
                        assert(reports@ == rb);
                        assert(resolved == literal_dimension(dims[i as int]));
                    }
                }
                let ghost res_before = resolutions@;
                resolutions.push(resolved);
                assert(resolutions@[i as int] == resolved);
                proof {
                    if !all_resolved(res_before) {
                        let j = choose|j: int| 0 <= j < res_before.len() && !(res_before[j] is Some);
                        assert(resolutions@[j] == res_before[j]);
                    }
                }
                match resolved {
                    Some(v) => {
                        concrete_dimensions.push(v);
                    },
                    None => {
                        let ghost rc = reports@;
                        report_invalid_dimension(&meta, reports);
                        proof {
                            lemma_extends_push(rc, Report::invalid_array_size_spec(meta));
                            lemma_extends_trans(rb, rc, reports@);
                            assert(!(resolutions@[i as int] is Some));
                        }
                        failed = true;
                    },
                }
                proof {
                    lemma_extends_trans(r0, rb, reports@);
                    let sub = dims.subrange(0, i + 1);
                    assert(sub.drop_last() =~= dims.subrange(0, i as int));
                    assert(sub.last() == dims[i as int]);
                    if inside_template || declaration_literal(xtype, dims) {
                        assert(reports@ =~= r0 + dimension_reports(sub, meta));
                    }
                }
                i = i + 1;
            }
            let ghost all_literal = forall|j: int|
                0 <= j < dims.len() ==> (#[trigger] literal_dimension(dims[j])) is Some;
            assert(all_literal ==> !failed);
            proof {
                lemma_dims_product_nonneg(concrete_dimensions@);
                if all_literal {
                    assert(concrete_dimensions@ =~= literal_sizes(dims));
                }
            }
            proof {
                if !failed {
                    assert(resolved_sizes(resolutions@) =~= concrete_dimensions@);
                }
            }
            let declared = declared_dimensions(&resolutions);
            if !failed {
                match declared {
                    Some(_) => {},
                    None => {
                        let ghost rc = reports@;
                        report_invalid_dimension(&meta, reports);
                        proof {
                            lemma_extends_push(rc, Report::invalid_array_size_spec(meta));
                            lemma_extends_trans(r0, rc, reports@);
                        }
                        failed = true;
                    },
                }
            }
            proof {
                assert(dims.subrange(0, dims.len() as int) =~= dims);
            }
            if failed {
                concrete_dimensions = Vec::new();
            }
            proof {
                assert(consistent_resolution(dims, resolutions@, inside_template));
                if !all_resolved(resolutions@) || !(dims_product(resolved_sizes(resolutions@))
                    <= usize::MAX) {
                    assert(concrete_dimensions@ =~= Seq::<usize>::empty());
                }
                assert(concrete_dimensions@ == shape_of(resolutions@));
            }
            proof {
                if inside_template && !failed {
                    lemma_template_dims(dims, concrete_dimensions@);
                }
            }
            if matches!(xtype, VariableType::Var) {
                if used_names.contains(&name) {
                    constants.remove(&name);
                } else {
                    used_names.insert(name.clone());
                    let size = match checked_product(&concrete_dimensions) {
                        Some(n) => n,
                        None => 1,
                    };
                    let dims_copy = concrete_dimensions.clone();
                    assert(dims_copy@ =~= concrete_dimensions@);
                    proof {
                        if failed {
                            assert(concrete_dimensions@ =~= Seq::<usize>::empty());
                        }
                    }
                    constants.insert(name.clone(), dims_copy, zero_values(size));
                }
            }
            Statement::Declaration { meta, xtype, name, dimensions, concrete_dimensions }
        },
        other => other,
    }
}

/// Resolves the uniform-array dimensions of a substitution's right-hand side
/// and updates what is known of its target: an indexed or repeated write, or
/// one that is not a closed literal, evicts a tracked target; a literal
/// initialization replaces its contents, padded with zeros to their former
/// length.
fn treat_substitution<I: ConstantInterpreter>(
    stmt: Statement,
    inside_template: bool,
    environment: &Environment,
    interpreter: &I,
    reports: &mut Vec<Report>,
    constants: &mut ConstantTable,
) -> (r: Statement)
    requires
        stmt is Substitution,
        old(constants).wf(),
    ensures
        final(constants).wf(),
        extends(old(reports)@, final(reports)@),
        r is Substitution,
        r->Substitution_meta == stmt->Substitution_meta,
        r->Substitution_var == stmt->Substitution_var,
        r->Substitution_access == stmt->Substitution_access,
        r->Substitution_is_initialization == stmt->Substitution_is_initialization,
        expression_rewritten(stmt->Substitution_rhe, r->Substitution_rhe, inside_template),
        ({
            let var = stmt->Substitution_var@;
            let t0 = old(constants)@;
            let t1 = final(constants)@;
            let simple = stmt->Substitution_is_initialization && stmt->Substitution_access@.len()
                == 0;
            &&& !t0.contains_key(var) ==> t1 == t0
            &&& t0.contains_key(var) && !simple ==> t1 == t0.remove(var)
            &&& t0.contains_key(var) && simple && constant_value(r->Substitution_rhe) is None ==> t1
                == t0.remove(var)
            &&& t0.contains_key(var) && simple && constant_value(r->Substitution_rhe) is Some ==> t1
                == t0.insert(
                var,
                (t0[var].0, pad(constant_value(r->Substitution_rhe)->0, t0[var].1.len())),
            )
        }),
        inside_template || literal_dims_only(stmt->Substitution_rhe) ==> final(reports)@ == old(reports)@ + expression_reports(stmt->Substitution_rhe),
        inside_template ==> final(constants)@ == assign(
            old(constants)@,
            stmt->Substitution_var@,
            stmt->Substitution_access@.len() > 0,
            stmt->Substitution_is_initialization,
            stmt->Substitution_rhe,
        ),
{
    match stmt {
        Statement::Substitution { meta, var, access, rhe, is_initialization } => {
            let ghost old_rhe = rhe;
            let rhe = treat_expression(rhe, inside_template, environment, interpreter, reports);
            proof {
                if inside_template {
                    lemma_template_constant_value(old_rhe, rhe);
                }
            }
            if constants.contains_key(&var) {
                if !is_initialization || access.len() > 0 {
                    constants.remove(&var);
                } else {
                    match is_constant_expression(&rhe) {
                        None => {
                            constants.remove(&var);
                        },
                        Some(mut value) => {
                            let (dims, prev_len) = match constants.get(&var) {
                                Some(entry) => {
                                    let d = entry.dimensions.clone();
                                    assert(d@ =~= entry.dimensions@);
                                    (d, entry.values.len())
                                },
                                None => (Vec::new(), 0),
                            };
                            let ghost v0 = values_view(value@);
                            let mut k: usize = value.len();
                            assert(v0 + zeros(0) =~= v0);
                            while k < prev_len
                                invariant
                                    value@.len() == k,
                                    v0.len() <= k,
                                    prev_len <= v0.len() ==> k == v0.len(),
                                    v0.len() < prev_len ==> k <= prev_len,
                                    values_view(value@) == v0 + zeros((k - v0.len()) as nat),
                                decreases prev_len - k,
                            {
                                let ghost before = value@;
                                value.push(BigNum::zero());
                                assert(values_view(value@) =~= values_view(before).push(0));
                                assert(values_view(value@) =~= v0 + zeros((k + 1 - v0.len()) as nat));
                                k = k + 1;
                            }
                            proof {
                                if v0.len() >= prev_len {
                                    assert(zeros((k - v0.len()) as nat) =~= Seq::<int>::empty());
                                    assert(values_view(value@) =~= v0);
                                }
                            }
                            constants.insert(var.clone(), dims, value);
                        },
                    }
                }
            }
            Statement::Substitution { meta, var, access, rhe, is_initialization }
        },
        other => {
            proof {
                lemma_extends_refl(reports@);
            }
            other
        },
    }
}

/// How a statement stands after constant propagation: the same tree, with
/// the uniform-array dimensions of substitutions resolved and each
/// declaration's concrete dimensions filled in (inside a template, exactly
/// as `template_dims` says).
pub open spec fn statement_rewritten(o: StmtV, n: StmtV, inside_template: bool) -> bool
    decreases o, 1int,
{
    match o {
        StmtV::Block { meta, stmts } => {
            &&& n is Block
            &&& n->Block_meta == meta
            &&& statements_rewritten(stmts, n->Block_stmts, false, inside_template)
        },
        StmtV::InitializationBlock { meta, xtype, initializations } => {
            &&& n is InitializationBlock
            &&& n->InitializationBlock_meta == meta
            &&& n->InitializationBlock_xtype == xtype
            &&& statements_rewritten(
                initializations,
                n->InitializationBlock_initializations,
                true,
                inside_template,
            )
        },
        StmtV::IfThenElse { meta, cond, if_case, else_case } => {
            &&& n is IfThenElse
            &&& n->IfThenElse_meta == meta
            &&& n->IfThenElse_cond == cond
            &&& statement_rewritten(*if_case, *n->IfThenElse_if_case, inside_template)
            &&& match else_case {
                Some(e) => n->IfThenElse_else_case is Some && statement_rewritten(
                    *e,
                    *n->IfThenElse_else_case->0,
                    inside_template,
                ),
                None => n->IfThenElse_else_case is None,
            }
        },
        StmtV::While { meta, cond, stmt } => {
            &&& n is While
            &&& n->While_meta == meta
            &&& n->While_cond == cond
            &&& statement_rewritten(*stmt, *n->While_stmt, inside_template)
        },
        StmtV::Declaration { meta, xtype, name, dimensions, .. } => {
            &&& n is Declaration
            &&& n->Declaration_meta == meta
            &&& n->Declaration_xtype == xtype
            &&& n->Declaration_name == name
            &&& n->Declaration_dimensions == dimensions
            &&& xtype == VariableType::AnonymousComponent ==> n->Declaration_concrete_dimensions.len()
                == 0
            &&& inside_template && xtype != VariableType::AnonymousComponent
                ==> n->Declaration_concrete_dimensions == template_dims(dimensions@)
            &&& xtype != VariableType::AnonymousComponent ==> exists|res: Seq<Option<usize>>|
                consistent_resolution(dimensions@, res, inside_template)
                    && n->Declaration_concrete_dimensions == shape_of(res)
        },
        StmtV::Substitution { meta, var, access, rhe, is_initialization } => {
            &&& n is Substitution
            &&& n->Substitution_meta == meta
            &&& n->Substitution_var == var
            &&& n->Substitution_access == access
            &&& n->Substitution_is_initialization == is_initialization
            &&& expression_rewritten(rhe, n->Substitution_rhe, inside_template)
        },
        _ => n == o,
    }
}

/// `statement_rewritten`, member by member; in an initialization block only
/// declarations and substitutions are touched.
pub open spec fn statements_rewritten(
    olds: Seq<StmtV>,
    news: Seq<StmtV>,
    init_block: bool,
    inside_template: bool,
) -> bool
    decreases olds, 0int,
{
    &&& olds.len() == news.len()
    &&& olds.len() > 0 ==> {
        &&& statements_rewritten(olds.drop_last(), news.drop_last(), init_block, inside_template)
        &&& if !init_block || olds.last() is Declaration || olds.last() is Substitution {
            statement_rewritten(olds.last(), news.last(), inside_template)
        } else {
            news.last() == olds.last()
        }
    }
}

proof fn lemma_literal_everywhere_prefix(ss: Seq<Statement>, k: int, init_block: bool)
    requires
        0 <= k <= ss.len(),
        all_literal_dims_everywhere(stmts_view(ss), init_block),
    ensures
        all_literal_dims_everywhere(stmts_view(ss.subrange(0, k)), init_block),
    decreases ss.len() - k,
{
    if k == ss.len() {
        assert(ss.subrange(0, k) =~= ss);
    } else {
        assert(ss.drop_last().subrange(0, k) =~= ss.subrange(0, k));
        assert(stmts_view(ss).drop_last() =~= stmts_view(ss.drop_last()));
        lemma_literal_everywhere_prefix(ss.drop_last(), k, init_block);
    }
}

/// Walks a list of statements in order. In an initialization block only its
/// declarations and substitutions are treated.
fn treat_statements<I: ConstantInterpreter>(
    stmts: Vec<Statement>,
    init_block: bool,
    inside_template: bool,
    environment: &Environment,
    interpreter: &I,
    reports: &mut Vec<Report>,
    constants: &mut ConstantTable,
    used_names: &mut UsedNames,
) -> (r: Vec<Statement>)
    requires
        old(constants).wf(),
        old(constants)@.dom().subset_of(old(used_names)@),
    ensures
        statements_rewritten(stmts_view(stmts@), stmts_view(r@), init_block, inside_template),
        final(constants).wf(),
        scope_advanced(old(constants)@, old(used_names)@, final(constants)@, final(used_names)@),
        extends(old(reports)@, final(reports)@),
        inside_template ==> (final(constants)@, final(used_names)@) == template_walk_list(
            stmts_view(stmts@),
            init_block,
            (old(constants)@, old(used_names)@),
        ),
        (final(constants)@, final(used_names)@) == scope_walk_list(
            stmts_view(r@),
            init_block,
            (old(constants)@, old(used_names)@),
        ),
        inside_template || all_literal_dims_everywhere(stmts_view(stmts@), init_block) ==> final(reports)@ == old(reports)@ + static_reports_list(stmts_view(stmts@), init_block),
    decreases stmts, 1int,
{
    let ghost orig = stmts@;
    let mut rest = stmts;
    let mut out: Vec<Statement> = Vec::new();
    let ghost mut i: int = 0;
    proof {
        lemma_scope_refl(constants@, used_names@);
        lemma_extends_refl(reports@);
        assert(orig.subrange(0, 0) =~= Seq::<Statement>::empty());
        assert(old(reports)@ + Seq::<Report>::empty() =~= old(reports)@);
        if all_literal_dims_everywhere(stmts_view(orig), init_block) {
            lemma_literal_everywhere_prefix(orig, orig.len() as int, init_block);
        }
    }
    while rest.len() > 0
        invariant
            0 <= i <= orig.len(),
            orig == stmts@,
            rest@ == orig.subrange(i, orig.len() as int),
            statements_rewritten(
                stmts_view(orig.subrange(0, i)),
                stmts_view(out@),
                init_block,
                inside_template,
            ),
            constants.wf(),
            scope_advanced(old(constants)@, old(used_names)@, constants@, used_names@),
            extends(old(reports)@, reports@),
            inside_template ==> (constants@, used_names@) == template_walk_list(
                stmts_view(orig.subrange(0, i)),
                init_block,
                (old(constants)@, old(used_names)@),
            ),
            (constants@, used_names@) == scope_walk_list(
                stmts_view(out@),
                init_block,
                (old(constants)@, old(used_names)@),
            ),
            all_literal_dims_everywhere(stmts_view(orig), init_block)
                ==> all_literal_dims_everywhere(stmts_view(orig.subrange(0, i)), init_block),
            inside_template || all_literal_dims_everywhere(stmts_view(orig), init_block)
                ==> reports@ == old(reports)@ + static_reports_list(
                stmts_view(orig.subrange(0, i)),
                init_block,
            ),
        decreases rest@.len(),
    {
        let x = rest.remove(0);
        assert(orig.subrange(0, i + 1) =~= orig.subrange(0, i).push(x));
        proof {
            lemma_stmts_view_push(orig.subrange(0, i), x);
        }
        let ghost xv = x@;
        let ghost pre = stmts_view(orig.subrange(0, i + 1));
        assert(pre.drop_last() == stmts_view(orig.subrange(0, i)));
        assert(pre.last() == xv);
        assert((x is Declaration) == (xv is Declaration));
        assert((x is Substitution) == (xv is Substitution));
        proof {
            if all_literal_dims_everywhere(stmts_view(orig), init_block) {
                lemma_literal_everywhere_prefix(orig, i + 1, init_block);
            }
        }
        proof {
            broadcast use vstd::std_specs::vec::axiom_vec_index_decreases;

            assert(x == stmts@[i]);
            assert(decreases_to!(stmts => stmts@[i]));
        }
        let ghost t0 = constants@;
        let ghost u0 = used_names@;
        let ghost r0 = reports@;
        let treat = !init_block || matches!(
            x,
            Statement::Declaration { .. } | Statement::Substitution { .. }
        );
        let y = if treat {
            treat_statement(
                x,
                inside_template,
                environment,
                interpreter,
                reports,
                constants,
                used_names,
            )
        } else {
            proof {
                lemma_scope_refl(constants@, used_names@);
                lemma_extends_refl(reports@);
            }
            x
        };
        proof {
            lemma_scope_trans(
                old(constants)@,
                old(used_names)@,
                t0,
                u0,
                constants@,
                used_names@,
            );
            lemma_extends_trans(old(reports)@, r0, reports@);
        }
        let ghost before = out@;
        out.push(y);
        proof {
            lemma_stmts_view_push(before, y);
            assert(stmts_view(out@).drop_last() == stmts_view(before));
            assert(stmts_view(out@).last() == y@);
            assert((y@ is Declaration) == (xv is Declaration));
            assert((y@ is Substitution) == (xv is Substitution));
            if inside_template || all_literal_dims_everywhere(stmts_view(orig), init_block) {
                assert(reports@ =~= old(reports)@ + static_reports_list(pre, init_block));
            }
            i = i + 1;
        }
    }
    assert(orig.subrange(0, i) =~= orig);
    out
}

/// The constant-propagation walk over one statement: blocks and
/// initialization blocks in order, both branches of a conditional one after
/// the other, the body of a loop once.
pub fn treat_statement<I: ConstantInterpreter>(
    stmt: Statement,
    inside_template: bool,
    environment: &Environment,
    interpreter: &I,
    reports: &mut Vec<Report>,
    constants: &mut ConstantTable,
    used_names: &mut UsedNames,
) -> (r: Statement)
    requires
        old(constants).wf(),
        old(constants)@.dom().subset_of(old(used_names)@),
    ensures
        final(constants).wf(),
        scope_advanced(old(constants)@, old(used_names)@, final(constants)@, final(used_names)@),
        extends(old(reports)@, final(reports)@),
        statement_rewritten(stmt@, r@, inside_template),
        inside_template ==> (final(constants)@, final(used_names)@) == template_walk(
            stmt@,
            (old(constants)@, old(used_names)@),
        ),
        (final(constants)@, final(used_names)@) == scope_walk(
            r@,
            (old(constants)@, old(used_names)@),
        ),
        inside_template || literal_dims_everywhere(stmt@) ==> final(reports)@ == old(reports)@
            + static_reports(stmt@),
    decreases stmt, 0int,
{
    match stmt {
        Statement::InitializationBlock { meta, xtype, initializations } => {
            let inits = treat_statements(
                initializations,
                true,
                inside_template,
                environment,
                interpreter,
                reports,
                constants,
                used_names,
            );
            Statement::InitializationBlock { meta, xtype, initializations: inits }
        },
        Statement::Block { meta, stmts } => {
            let stmts = treat_statements(
                stmts,
                false,
                inside_template,
                environment,
                interpreter,
                reports,
                constants,
                used_names,
            );
            Statement::Block { meta, stmts }
        },
        Statement::IfThenElse { meta, cond, if_case, else_case } => {
            let ghost t0 = constants@;
            let ghost u0 = used_names@;
            let ghost r0 = reports@;
            let i = treat_statement(
                *if_case,
                inside_template,
                environment,
                interpreter,
                reports,
                constants,
                used_names,
            );
            let ghost t1 = constants@;
            let ghost u1 = used_names@;
            let ghost r1 = reports@;
            let e = match else_case {
                Some(e) => Some(
                    Box::new(
                        treat_statement(
                            *e,
                            inside_template,
                            environment,
                            interpreter,
                            reports,
                            constants,
                            used_names,
                        ),
                    ),
                ),
                None => {
                    proof {
                        lemma_scope_refl(constants@, used_names@);
                        lemma_extends_refl(reports@);
                    }
                    None
                },
            };
            proof {
                lemma_scope_trans(t0, u0, t1, u1, constants@, used_names@);
                lemma_extends_trans(r0, r1, reports@);
            }
            Statement::IfThenElse { meta, cond, if_case: Box::new(i), else_case: e }
        },
        Statement::While { meta, cond, stmt: body } => {
            let b = treat_statement(
                *body,
                inside_template,
                environment,
                interpreter,
                reports,
                constants,
                used_names,
            );
            Statement::While { meta, cond, stmt: Box::new(b) }
        },
        Statement::Declaration { .. } => {
            treat_declaration(
                stmt,
                inside_template,
                environment,
                interpreter,
                reports,
                constants,
                used_names,
            )
        },
        Statement::Substitution { .. } => {
            let r = treat_substitution(
                stmt,
                inside_template,
                environment,
                interpreter,
                reports,
                constants,
            );
            r
        },
        other => {
            proof {
                lemma_scope_refl(constants@, used_names@);
                lemma_extends_refl(reports@);
            }
            other
        },
    }
}

/// The reports of walking each template instance's code, in order.
pub open spec fn instances_reports(s: Seq<TemplateInstance>) -> Seq<Report>
    decreases s.len(),
{
    if s.len() == 0 {
        Seq::empty()
    } else {
        instances_reports(s.drop_last()) + static_reports(s.last().code@)
    }
}

/// The reports of walking each function body, in order, where the
/// interpreter is never asked.
pub open spec fn functions_reports(s: Seq<FunctionData>) -> Seq<Report>
    decreases s.len(),
{
    if s.len() == 0 {
        Seq::empty()
    } else {
        functions_reports(s.drop_last()) + static_reports(s.last().body@)
    }
}

/// Runs constant propagation over every template instance, with each
/// instance's header as its environment and literal array sizes required,
/// and attaches to each instance the table it ends with. Fails with every
/// report gathered, if there is any.
pub fn compute_vct<I: ConstantInterpreter>(instances: &mut Vec<TemplateInstance>, interpreter: &I) -> (r:
    Result<(), Vec<Report>>)
    ensures
        final(instances)@.len() == old(instances)@.len(),
        forall|i: int|
            0 <= i < old(instances)@.len() ==> {
                &&& (#[trigger] final(instances)@[i]).template_name == old(instances)@[i].template_name
                &&& final(instances)@[i].header == old(instances)@[i].header
                &&& final(instances)@[i].constant_variables.wf()
                &&& statement_rewritten(old(instances)@[i].code@, final(instances)@[i].code@, true)
                &&& final(instances)@[i].constant_variables@ == scope_walk(
                    final(instances)@[i].code@,
                    (Map::empty(), Set::empty()),
                ).0
                &&& final(instances)@[i].constant_variables@ == template_walk(
                    old(instances)@[i].code@,
                    (Map::empty(), Set::empty()),
                ).0
            },
        r is Ok <==> instances_reports(old(instances)@).len() == 0,
        match r {
            Ok(()) => true,
            Err(reports) => reports@ == instances_reports(old(instances)@),
        },
{
    let mut reports: Vec<Report> = Vec::new();
    let mut rest: Vec<TemplateInstance> = Vec::new();
    core::mem::swap(instances, &mut rest);
    let ghost orig = rest@;
    let ghost mut i: int = 0;
    assert(orig.subrange(0, 0) =~= Seq::<TemplateInstance>::empty());
    while rest.len() > 0
        invariant
            0 <= i <= orig.len(),
            orig == old(instances)@,
            rest@ == orig.subrange(i, orig.len() as int),
            instances@.len() == i,
            reports@ == instances_reports(orig.subrange(0, i)),
            forall|j: int|
                0 <= j < i ==> {
                    &&& (#[trigger] instances@[j]).template_name == orig[j].template_name
                    &&& instances@[j].header == orig[j].header
                    &&& instances@[j].constant_variables.wf()
                    &&& statement_rewritten(orig[j].code@, instances@[j].code@, true)
                    &&& instances@[j].constant_variables@ == scope_walk(
                        instances@[j].code@,
                        (Map::empty(), Set::empty()),
                    ).0
                    &&& instances@[j].constant_variables@ == template_walk(
                        orig[j].code@,
                        (Map::empty(), Set::empty()),
                    ).0
                },
        decreases rest@.len(),
    {
        let instance = rest.remove(0);
        assert(instance == orig[i]);
        let TemplateInstance { template_name, header, code, constant_variables: _ } = instance;
        let environment = transform_header_into_environment(header.as_slice());
        let mut constant_variables = ConstantTable::new();
        let mut used_names = UsedNames::new();
        let code = treat_statement(
            code,
            true,
            &environment,
            interpreter,
            &mut reports,
            &mut constant_variables,
            &mut used_names,
        );
        instances.push(TemplateInstance { template_name, header, code, constant_variables });
        proof {
            assert(orig.subrange(0, i + 1).drop_last() =~= orig.subrange(0, i));
        }
        proof {
            i = i + 1;
        }
    }
    assert(orig.subrange(0, i) =~= orig);
    if reports.len() == 0 {
        Ok(())
    } else {
        Err(reports)
    }
}

/// Runs constant propagation over every function body, in an empty
/// environment, and attaches to each function the table it ends with. Fails
/// with every report gathered, if there is any.
pub fn manage_functions<I: ConstantInterpreter>(functions: &mut Vec<FunctionData>, interpreter: &I) -> (r:
    Result<(), Vec<Report>>)
    ensures
        final(functions)@.len() == old(functions)@.len(),
        forall|i: int|
            0 <= i < old(functions)@.len() ==> {
                &&& (#[trigger] final(functions)@[i]).name == old(functions)@[i].name
                &&& final(functions)@[i].constant_variables.wf()
                &&& statement_rewritten(old(functions)@[i].body@, final(functions)@[i].body@, false)
                &&& final(functions)@[i].constant_variables@ == scope_walk(
                    final(functions)@[i].body@,
                    (Map::empty(), Set::empty()),
                ).0
            },
        match r {
            Ok(()) => true,
            Err(reports) => reports@.len() > 0,
        },
        (forall|i: int|
            0 <= i < old(functions)@.len() ==> literal_dims_everywhere(
                #[trigger] old(functions)@[i].body@,
            )) ==> (r is Ok <==> functions_reports(old(functions)@).len() == 0) && match r {
            Ok(()) => true,
            Err(reports) => reports@ == functions_reports(old(functions)@),
        },
{
    let mut reports: Vec<Report> = Vec::new();
    let mut rest: Vec<FunctionData> = Vec::new();
    core::mem::swap(functions, &mut rest);
    let ghost orig = rest@;
    let ghost mut i: int = 0;
    assert(orig.subrange(0, 0) =~= Seq::<FunctionData>::empty());
    while rest.len() > 0
        invariant
            0 <= i <= orig.len(),
            orig == old(functions)@,
            rest@ == orig.subrange(i, orig.len() as int),
            functions@.len() == i,
            (forall|j: int| 0 <= j < orig.len() ==> literal_dims_everywhere(#[trigger] orig[j].body@))
                ==> reports@ == functions_reports(orig.subrange(0, i)),
            forall|j: int|
                0 <= j < i ==> {
                    &&& (#[trigger] functions@[j]).name == orig[j].name
                    &&& functions@[j].constant_variables.wf()
                    &&& statement_rewritten(orig[j].body@, functions@[j].body@, false)
                    &&& functions@[j].constant_variables@ == scope_walk(
                        functions@[j].body@,
                        (Map::empty(), Set::empty()),
                    ).0
                },
        decreases rest@.len(),
    {
        let data = rest.remove(0);
        assert(data == orig[i]);
        let FunctionData { name, body, constant_variables: _ } = data;
        let environment = Environment::new();
        let mut constant_variables = ConstantTable::new();
        let mut used_names = UsedNames::new();
        let body = treat_statement(
            body,
            false,
            &environment,
            interpreter,
            &mut reports,
            &mut constant_variables,
            &mut used_names,
        );
        functions.push(FunctionData { name, body, constant_variables });
        proof {
            assert(orig.subrange(0, i + 1).drop_last() =~= orig.subrange(0, i));
        }
        proof {
            i = i + 1;
        }
    }
    assert(orig.subrange(0, i) =~= orig);
    if reports.len() == 0 {
        Ok(())
    } else {
        Err(reports)
    }
}

} // verus!
