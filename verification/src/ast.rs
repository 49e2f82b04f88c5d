use vstd::prelude::*;

verus! {

/// One node of the expression tree, one variant per syntactic form.  Each
/// node exclusively owns its children: a strict tree, no sharing.
#[derive(Debug)]
pub enum Expr {
    Number { n: i32 },
    Variable { name: String },
    Assign { location: Box<Expr>, value: Box<Expr> },
    Add { left: Box<Expr>, right: Box<Expr> },
    Minus { left: Box<Expr>, right: Box<Expr> },
    Mul { left: Box<Expr>, right: Box<Expr> },
}

/// Spec-level model of an expression tree, over unbounded integers and
/// character sequences.
pub enum ExprModel {
    Number(int),
    Variable(Seq<char>),
    Assign(Box<ExprModel>, Box<ExprModel>),
    Add(Box<ExprModel>, Box<ExprModel>),
    Minus(Box<ExprModel>, Box<ExprModel>),
    Mul(Box<ExprModel>, Box<ExprModel>),
}

/// The model that an expression tree denotes.
pub open spec fn model_of(e: Expr) -> ExprModel
    decreases e,
{
    match e {
        Expr::Number { n } => ExprModel::Number(n as int),
        Expr::Variable { name } => ExprModel::Variable(name@),
        Expr::Assign { location, value } => ExprModel::Assign(
            Box::new(model_of(*location)),
            Box::new(model_of(*value)),
        ),
        Expr::Add { left, right } => ExprModel::Add(
            Box::new(model_of(*left)),
            Box::new(model_of(*right)),
        ),
        Expr::Minus { left, right } => ExprModel::Minus(
            Box::new(model_of(*left)),
            Box::new(model_of(*right)),
        ),
        Expr::Mul { left, right } => ExprModel::Mul(
            Box::new(model_of(*left)),
            Box::new(model_of(*right)),
        ),
    }
}

/// A node models a variable reference exactly when it is one.
pub proof fn lemma_model_of_variable(e: Expr)
    ensures
        (model_of(e) is Variable) <==> (e is Variable),
{
    match e {
        Expr::Number { .. } => {},
        Expr::Variable { .. } => {},
        Expr::Assign { .. } => {},
        Expr::Add { .. } => {},
        Expr::Minus { .. } => {},
        Expr::Mul { .. } => {},
    }
}

impl View for Expr {
    type V = ExprModel;

    open spec fn view(&self) -> ExprModel {
        model_of(*self)
    }
}

} // verus!
