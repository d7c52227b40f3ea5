use vstd::prelude::*;

use crate::ast::{lemma_stmts_view_push, stmts_view, Statement, StmtV, VariableType};
use crate::program::{FunctionData, TemplateInstance, VCP};
use crate::table::{ConstantTable, TableView};

verus! {

/// A statement whose only role was structural: a component initialization
/// block, or a substitution into a component or tag, of a bus call, or that
/// initializes a variable whose value the table already holds.
pub open spec fn removable(s: StmtV, t: TableView) -> bool {
    match s {
        StmtV::InitializationBlock { xtype, .. } => xtype == VariableType::Component || xtype
            == VariableType::AnonymousComponent,
        StmtV::Substitution { meta, var, rhe, is_initialization, .. } => meta.is_component
            || meta.is_tag || rhe.is_bus_call_spec() || rhe.is_bus_call_array_spec() || (
        is_initialization && t.contains_key(var)),
        _ => false,
    }
}

/// The statement after structural elimination.
pub open spec fn rm_spec(s: StmtV, t: TableView) -> StmtV
    decreases s, 1int,
{
    match s {
        StmtV::While { meta, cond, stmt } => StmtV::While {
            meta,
            cond,
            stmt: Box::new(rm_spec(*stmt, t)),
        },
        StmtV::IfThenElse { meta, cond, if_case, else_case } => StmtV::IfThenElse {
            meta,
            cond,
            if_case: Box::new(rm_spec(*if_case, t)),
            else_case: match else_case {
                Some(e) => Some(Box::new(rm_spec(*e, t))),
                None => None,
            },
        },
        StmtV::Block { meta, stmts } => StmtV::Block {
            meta,
            stmts: rm_list(stmts, VariableType::Var, t),
        },
        StmtV::InitializationBlock { meta, xtype, initializations } => if removable(s, t) {
            StmtV::Block { meta, stmts: Seq::empty() }
        } else {
            StmtV::InitializationBlock { meta, xtype, initializations: rm_list(initializations, xtype, t) }
        },
        StmtV::Substitution { meta, .. } => if removable(s, t) {
            StmtV::Block { meta, stmts: Seq::empty() }
        } else {
            s
        },
        StmtV::UnderscoreSubstitution { meta, .. } => StmtV::Block { meta, stmts: Seq::empty() },
        _ => s,
    }
}

/// What one member of a list contributes after elimination. In an
/// initialization block of signals substitutions stay and nested blocks are
/// simplified; of buses, the same but removable substitutions leave; anywhere
/// else (a block, or an initialization block of another kind) a removable
/// member and an underscore substitution leave, and every other member is
/// simplified.
pub open spec fn rm_kept(x: StmtV, xtype: VariableType, t: TableView) -> Seq<StmtV>
    decreases x, 2int,
{
    if xtype == VariableType::Signal || xtype == VariableType::Bus {
        if x is Substitution {
            if xtype == VariableType::Bus && removable(x, t) {
                Seq::empty()
            } else {
                seq![x]
            }
        } else if x is Block {
            seq![rm_spec(x, t)]
        } else {
            Seq::empty()
        }
    } else if removable(x, t) || x is UnderscoreSubstitution {
        Seq::empty()
    } else {
        seq![rm_spec(x, t)]
    }
}

/// A list of statements after elimination.
pub open spec fn rm_list(ss: Seq<StmtV>, xtype: VariableType, t: TableView) -> Seq<StmtV>
    decreases ss, 0int,
{
    if ss.len() == 0 {
        Seq::empty()
    } else {
        rm_list(ss.drop_last(), xtype, t) + rm_kept(ss.last(), xtype, t)
    }
}

/// Decides whether `stmt` is removable in a scope with the given constants.
pub fn should_be_removed(stmt: &Statement, constants: &ConstantTable) -> (r: bool)
    requires
        constants.wf(),
    ensures
        r == removable(stmt@, constants@),
{
    match stmt {
        Statement::InitializationBlock { xtype, .. } => matches!(
            xtype,
            VariableType::Component | VariableType::AnonymousComponent
        ),
        Statement::Substitution { meta, rhe, var, is_initialization, .. } => meta.is_component
            || meta.is_tag || rhe.is_bus_call() || rhe.is_bus_call_array() || (*is_initialization
            && constants.contains_key(var)),
        _ => false,
    }
}

/// Eliminates the structural statements of a list, as `rm_list` says.
fn rm_statements(stmts: Vec<Statement>, xtype: VariableType, constants: &ConstantTable) -> (r: Vec<
    Statement,
>)
    requires
        constants.wf(),
    ensures
        stmts_view(r@) == rm_list(stmts_view(stmts@), xtype, constants@),
    decreases stmts, 1int,
{
    let ghost orig = stmts@;
    let ghost t = constants@;
    let mut rest = stmts;
    let mut out: Vec<Statement> = Vec::new();
    let ghost mut i: int = 0;
    assert(orig.subrange(0, 0) =~= Seq::<Statement>::empty());
    while rest.len() > 0
        invariant
            0 <= i <= orig.len(),
            orig == stmts@,
            t == constants@,
            constants.wf(),
            rest@ == orig.subrange(i, orig.len() as int),
            stmts_view(out@) == rm_list(stmts_view(orig.subrange(0, i)), xtype, t),
        decreases rest@.len(),
    {
        let x = rest.remove(0);
        let ghost xv = x@;
        assert(orig.subrange(0, i + 1) =~= orig.subrange(0, i).push(x));
        proof {
            lemma_stmts_view_push(orig.subrange(0, i), x);
            broadcast use vstd::std_specs::vec::axiom_vec_index_decreases;

            assert(x == stmts@[i]);
            assert(decreases_to!(stmts => stmts@[i]));
        }
        let ghost pre = stmts_view(orig.subrange(0, i + 1));
        assert(pre.drop_last() == stmts_view(orig.subrange(0, i)));
        assert(pre.last() == xv);
        let is_sub = matches!(x, Statement::Substitution { .. });
        let is_block = matches!(x, Statement::Block { .. });
        let ghost before = out@;
        if matches!(xtype, VariableType::Signal | VariableType::Bus) {
            if is_sub {
                let drop = matches!(xtype, VariableType::Bus) && should_be_removed(&x, constants);
                if !drop {
                    out.push(x);
                    proof {
                        lemma_stmts_view_push(before, x);
                    }
                }
            } else if is_block {
                let y = rm_statement(x, constants);
                out.push(y);
                proof {
                    lemma_stmts_view_push(before, y);
                }
            }
        } else if !should_be_removed(&x, constants) && !matches!(
            x,
            Statement::UnderscoreSubstitution { .. }
        ) {
            let y = rm_statement(x, constants);
            out.push(y);
            proof {
                lemma_stmts_view_push(before, y);
            }
        }
        assert(stmts_view(out@) =~= stmts_view(before) + rm_kept(xv, xtype, t));
        proof {
            i = i + 1;
        }
    }
    assert(orig.subrange(0, i) =~= orig);
    out
}

/// Structural elimination on one statement: component wiring, bus calls, tag
/// substitutions and initializations of variables known to be constant go.
pub fn rm_statement(stmt: Statement, constants: &ConstantTable) -> (r: Statement)
    requires
        constants.wf(),
    ensures
        r@ == rm_spec(stmt@, constants@),
    decreases stmt, 0int,
{
    let remove = should_be_removed(&stmt, constants);
    match stmt {
        Statement::While { meta, cond, stmt: body } => {
            let b = rm_statement(*body, constants);
            Statement::While { meta, cond, stmt: Box::new(b) }
        },
        Statement::IfThenElse { meta, cond, if_case, else_case } => {
            let i = rm_statement(*if_case, constants);
            let e = match else_case {
                Some(e) => Some(Box::new(rm_statement(*e, constants))),
                None => None,
            };
            Statement::IfThenElse { meta, cond, if_case: Box::new(i), else_case: e }
        },
        Statement::Block { meta, stmts } => {
            let s = rm_statements(stmts, VariableType::Var, constants);
            Statement::Block { meta, stmts: s }
        },
        Statement::InitializationBlock { meta, xtype, initializations } => {
            if remove {
                let r = Statement::Block { meta, stmts: Vec::new() };
                assert(stmts_view(Seq::<Statement>::empty()) == Seq::<StmtV>::empty());
                r
            } else {
                let s = rm_statements(initializations, xtype, constants);
                Statement::InitializationBlock { meta, xtype, initializations: s }
            }
        },
        Statement::Substitution { meta, var, access, rhe, is_initialization } => {
            if remove {
                let r = Statement::Block { meta, stmts: Vec::new() };
                assert(stmts_view(Seq::<Statement>::empty()) == Seq::<StmtV>::empty());
                r
            } else {
                Statement::Substitution { meta, var, access, rhe, is_initialization }
            }
        },
        Statement::UnderscoreSubstitution { meta, .. } => {
            let r = Statement::Block { meta, stmts: Vec::new() };
            assert(stmts_view(Seq::<Statement>::empty()) == Seq::<StmtV>::empty());
            r
        },
        Statement::Return { meta, value } => Statement::Return { meta, value },
        Statement::Declaration { meta, xtype, name, dimensions, concrete_dimensions } =>
            Statement::Declaration { meta, xtype, name, dimensions, concrete_dimensions },
    }
}

/// Structural elimination over the whole program: each template instance's
/// code and each function's body, against the table of its own scope.
pub fn rm_component_ci(vcp: &mut VCP)
    requires
        forall|i: int|
            0 <= i < old(vcp).templates@.len() ==> (#[trigger] old(
                vcp,
            ).templates@[i]).constant_variables.wf(),
        forall|i: int|
            0 <= i < old(vcp).functions@.len() ==> (#[trigger] old(
                vcp,
            ).functions@[i]).constant_variables.wf(),
    ensures
        final(vcp).templates@.len() == old(vcp).templates@.len(),
        final(vcp).functions@.len() == old(vcp).functions@.len(),
        forall|i: int|
            0 <= i < old(vcp).templates@.len() ==> {
                let a = old(vcp).templates@[i];
                let b = #[trigger] final(vcp).templates@[i];
                &&& b.template_name == a.template_name
                &&& b.header == a.header
                &&& b.constant_variables == a.constant_variables
                &&& b.code@ == rm_spec(a.code@, a.constant_variables@)
            },
        forall|i: int|
            0 <= i < old(vcp).functions@.len() ==> {
                let a = old(vcp).functions@[i];
                let b = #[trigger] final(vcp).functions@[i];
                &&& b.name == a.name
                &&& b.constant_variables == a.constant_variables
                &&& b.body@ == rm_spec(a.body@, a.constant_variables@)
            },
{
    let mut templates: Vec<TemplateInstance> = Vec::new();
    core::mem::swap(&mut vcp.templates, &mut templates);
    let ghost orig = templates@;
    let mut done: Vec<TemplateInstance> = Vec::new();
    let ghost mut i: int = 0;
    while templates.len() > 0
        invariant
            0 <= i <= orig.len(),
            orig == old(vcp).templates@,
            templates@ == orig.subrange(i, orig.len() as int),
            done@.len() == i,
            forall|j: int| 0 <= j < orig.len() ==> (#[trigger] orig[j]).constant_variables.wf(),
            forall|j: int|
                0 <= j < i ==> {
                    let a = orig[j];
                    let b = #[trigger] done@[j];
                    &&& b.template_name == a.template_name
                    &&& b.header == a.header
                    &&& b.constant_variables == a.constant_variables
                    &&& b.code@ == rm_spec(a.code@, a.constant_variables@)
                },
        decreases templates@.len(),
    {
        let t = templates.remove(0);
        assert(t == orig[i]);
        let TemplateInstance { template_name, header, code, constant_variables } = t;
        let code = rm_statement(code, &constant_variables);
        done.push(TemplateInstance { template_name, header, code, constant_variables });
        proof {
            i = i + 1;
        }
    }
    vcp.templates = done;
    let mut functions: Vec<FunctionData> = Vec::new();
    core::mem::swap(&mut vcp.functions, &mut functions);
    let ghost orig_f = functions@;
    let mut done_f: Vec<FunctionData> = Vec::new();
    let ghost mut k: int = 0;
    while functions.len() > 0
        invariant
            0 <= k <= orig_f.len(),
            orig_f == old(vcp).functions@,
            functions@ == orig_f.subrange(k, orig_f.len() as int),
            done_f@.len() == k,
            forall|j: int| 0 <= j < orig_f.len() ==> (#[trigger] orig_f[j]).constant_variables.wf(),
            forall|j: int|
                0 <= j < k ==> {
                    let a = orig_f[j];
                    let b = #[trigger] done_f@[j];
                    &&& b.name == a.name
                    &&& b.constant_variables == a.constant_variables
                    &&& b.body@ == rm_spec(a.body@, a.constant_variables@)
                },
        decreases functions@.len(),
    {
        let f = functions.remove(0);
        assert(f == orig_f[k]);
        let FunctionData { name, body, constant_variables } = f;
        let body = rm_statement(body, &constant_variables);
        done_f.push(FunctionData { name, body, constant_variables });
        proof {
            k = k + 1;
        }
    }
    vcp.functions = done_f;
}

proof fn lemma_rm_list_concat(a: Seq<StmtV>, b: Seq<StmtV>, xtype: VariableType, t: TableView)
    ensures
        rm_list(a + b, xtype, t) == rm_list(a, xtype, t) + rm_list(b, xtype, t),
    decreases b.len(),
{
    if b.len() == 0 {
        assert(a + b =~= a);
        assert(rm_list(a, xtype, t) + Seq::<StmtV>::empty() =~= rm_list(a, xtype, t));
    } else {
        assert((a + b).drop_last() =~= a + b.drop_last());
        assert((a + b).last() == b.last());
        lemma_rm_list_concat(a, b.drop_last(), xtype, t);
        assert(rm_list(a + b, xtype, t) =~= rm_list(a, xtype, t) + rm_list(b, xtype, t));
    }
}

proof fn lemma_rm_list_single(x: StmtV, xtype: VariableType, t: TableView)
    ensures
        rm_list(seq![x], xtype, t) == rm_kept(x, xtype, t),
{
    assert(seq![x].drop_last() =~= Seq::<StmtV>::empty());
    assert(seq![x].last() == x);
    assert(rm_list(Seq::<StmtV>::empty(), xtype, t) == Seq::<StmtV>::empty());
    assert(Seq::<StmtV>::empty() + rm_kept(x, xtype, t) =~= rm_kept(x, xtype, t));
}

proof fn lemma_rm_list_idempotent(ss: Seq<StmtV>, xtype: VariableType, t: TableView)
    ensures
        rm_list(rm_list(ss, xtype, t), xtype, t) == rm_list(ss, xtype, t),
    decreases ss, 0int,
{
    if ss.len() == 0 {
    } else {
        let x = ss.last();
        let p = rm_list(ss.drop_last(), xtype, t);
        let k = rm_kept(x, xtype, t);
        lemma_rm_list_idempotent(ss.drop_last(), xtype, t);
        lemma_elimination_idempotent(x, t);
        lemma_rm_list_concat(p, k, xtype, t);
        if k.len() == 1 {
            lemma_rm_list_single(k[0], xtype, t);
            assert(rm_kept(k[0], xtype, t) =~= k);
        } else {
            assert(k =~= Seq::<StmtV>::empty());
        }
    }
}

/// Elimination is idempotent: eliminating again what elimination left
/// changes nothing.
pub proof fn lemma_elimination_idempotent(s: StmtV, t: TableView)
    ensures
        rm_spec(rm_spec(s, t), t) == rm_spec(s, t),
    decreases s, 1int,
{
    match s {
        StmtV::While { stmt, .. } => {
            lemma_elimination_idempotent(*stmt, t);
        },
        StmtV::IfThenElse { if_case, else_case, .. } => {
            lemma_elimination_idempotent(*if_case, t);
            if let Some(e) = else_case {
                lemma_elimination_idempotent(*e, t);
            }
        },
        StmtV::Block { stmts, .. } => {
            lemma_rm_list_idempotent(stmts, VariableType::Var, t);
        },
        StmtV::InitializationBlock { xtype, initializations, .. } => {
            lemma_rm_list_idempotent(initializations, xtype, t);
            assert(rm_list(Seq::<StmtV>::empty(), VariableType::Var, t) =~= Seq::<StmtV>::empty());
        },
        StmtV::UnderscoreSubstitution { meta, .. } => {
            assert(rm_list(Seq::<StmtV>::empty(), VariableType::Var, t) =~= Seq::<StmtV>::empty());
        },
        StmtV::Substitution { meta, .. } => {
            assert(rm_list(Seq::<StmtV>::empty(), VariableType::Var, t) =~= Seq::<StmtV>::empty());
        },
        _ => {},
    }
}

/// An initialization block of components.
pub open spec fn is_component_block(s: StmtV) -> bool {
    s matches StmtV::InitializationBlock { xtype, .. } && (xtype == VariableType::Component || xtype
        == VariableType::AnonymousComponent)
}

/// No initialization block of components occurs anywhere in `s`.
pub open spec fn free_of_component_blocks(s: StmtV) -> bool
    decreases s, 1int,
{
    !is_component_block(s) && match s {
        StmtV::While { stmt, .. } => free_of_component_blocks(*stmt),
        StmtV::IfThenElse { if_case, else_case, .. } => free_of_component_blocks(*if_case) && match else_case {
            Some(e) => free_of_component_blocks(*e),
            None => true,
        },
        StmtV::Block { stmts, .. } => all_free_of_component_blocks(stmts),
        StmtV::InitializationBlock { initializations, .. } => all_free_of_component_blocks(
            initializations,
        ),
        _ => true,
    }
}

pub open spec fn all_free_of_component_blocks(ss: Seq<StmtV>) -> bool
    decreases ss, 0int,
{
    ss.len() == 0 || (all_free_of_component_blocks(ss.drop_last()) && free_of_component_blocks(
        ss.last(),
    ))
}

proof fn lemma_all_free_concat(a: Seq<StmtV>, b: Seq<StmtV>)
    requires
        all_free_of_component_blocks(a),
        all_free_of_component_blocks(b),
    ensures
        all_free_of_component_blocks(a + b),
    decreases b.len(),
{
    if b.len() == 0 {
        assert(a + b =~= a);
    } else {
        assert((a + b).drop_last() =~= a + b.drop_last());
        lemma_all_free_concat(a, b.drop_last());
    }
}

proof fn lemma_rm_list_free(ss: Seq<StmtV>, xtype: VariableType, t: TableView)
    ensures
        all_free_of_component_blocks(rm_list(ss, xtype, t)),
    decreases ss, 0int,
{
    if ss.len() > 0 {
        let x = ss.last();
        lemma_rm_list_free(ss.drop_last(), xtype, t);
        let k = rm_kept(x, xtype, t);
        if k.len() == 1 {
            lemma_elimination_removes_component_blocks(x, t);
            assert(k.drop_last() =~= Seq::<StmtV>::empty());
            assert(all_free_of_component_blocks(k.drop_last()));
            assert(k.last() == k[0]);
            assert(free_of_component_blocks(k[0]));
        } else {
            assert(k =~= Seq::<StmtV>::empty());
        }
        lemma_all_free_concat(rm_list(ss.drop_last(), xtype, t), k);
    }
}

/// No initialization block of components is left anywhere after elimination.
pub proof fn lemma_elimination_removes_component_blocks(s: StmtV, t: TableView)
    ensures
        free_of_component_blocks(rm_spec(s, t)),
    decreases s, 1int,
{
    assert(all_free_of_component_blocks(Seq::<StmtV>::empty()));
    match s {
        StmtV::While { stmt, .. } => {
            lemma_elimination_removes_component_blocks(*stmt, t);
        },
        StmtV::IfThenElse { if_case, else_case, .. } => {
            lemma_elimination_removes_component_blocks(*if_case, t);
            if let Some(e) = else_case {
                lemma_elimination_removes_component_blocks(*e, t);
            }
        },
        StmtV::Block { stmts, .. } => {
            lemma_rm_list_free(stmts, VariableType::Var, t);
        },
        StmtV::InitializationBlock { xtype, initializations, .. } => {
            lemma_rm_list_free(initializations, xtype, t);
        },
        _ => {},
    }
}

} // verus!
