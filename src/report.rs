use vstd::prelude::*;

use crate::ast::Meta;

verus! {

/// What went wrong.
#[derive(Clone, Copy, Debug, PartialEq, Eq)]
pub enum ReportCode {
    /// An expression that cannot be used as an array size.
    InvalidArraySize,
    /// A failure of the constant-expression interpreter, by its own code.
    Execution(usize),
}

/// A diagnostic tied to a source location.
#[derive(Clone, Copy, Debug, PartialEq, Eq)]
pub struct Report {
    pub code: ReportCode,
    pub location: Meta,
}

impl Report {
    pub open spec fn invalid_array_size_spec(meta: Meta) -> Report {
        Report { code: ReportCode::InvalidArraySize, location: meta }
    }

    pub fn invalid_array_size(meta: Meta) -> (r: Report)
        ensures
            r == Report::invalid_array_size_spec(meta),
    {
        Report { code: ReportCode::InvalidArraySize, location: meta }
    }

    /// The headline of the diagnostic.
    pub fn title(&self) -> (r: &'static str)
        ensures
            self.code is InvalidArraySize ==> r@ == "Invalid array size"@,
            self.code is Execution ==> r@ == "Constant expression could not be evaluated"@,
    {
        proof {
            reveal_strlit("Invalid array size");
            reveal_strlit("Constant expression could not be evaluated");
        }
        match self.code {
            ReportCode::InvalidArraySize => "Invalid array size",
            ReportCode::Execution(_) => "Constant expression could not be evaluated",
        }
    }

    /// The note attached to the diagnostic's location.
    pub fn primary_message(&self) -> (r: &'static str)
        ensures
            self.code is InvalidArraySize ==> r@ == "This expression can not be used as an array size"@,
            self.code is Execution ==> r@ == "This expression could not be evaluated"@,
    {
        proof {
            reveal_strlit("This expression can not be used as an array size");
            reveal_strlit("This expression could not be evaluated");
        }
        match self.code {
            ReportCode::InvalidArraySize => "This expression can not be used as an array size",
            ReportCode::Execution(_) => "This expression could not be evaluated",
        }
    }
}

/// `b` extends `a`: the reports that were there stay, in order.
pub open spec fn extends(a: Seq<Report>, b: Seq<Report>) -> bool {
    a.len() <= b.len() && b.subrange(0, a.len() as int) == a
}

pub proof fn lemma_extends_refl(a: Seq<Report>)
    ensures
        extends(a, a),
{
    assert(a.subrange(0, a.len() as int) =~= a);
}

pub proof fn lemma_extends_push(a: Seq<Report>, x: Report)
    ensures
        extends(a, a.push(x)),
{
    assert(a.push(x).subrange(0, a.len() as int) =~= a);
}

pub proof fn lemma_extends_trans(a: Seq<Report>, b: Seq<Report>, c: Seq<Report>)
    requires
        extends(a, b),
        extends(b, c),
    ensures
        extends(a, c),
        a.len() < b.len() ==> c[a.len() as int] == b[a.len() as int],
{
    assert(c.subrange(0, a.len() as int) =~= c.subrange(0, b.len() as int).subrange(0, a.len() as int));
    if a.len() < b.len() {
        assert(c[a.len() as int] == c.subrange(0, b.len() as int)[a.len() as int]);
    }
}

} // verus!
