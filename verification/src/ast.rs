//! The abstract syntax tree of the source language, together with its
//! mathematical model: a mirror datatype over `int` and `Seq`, a deep view
//! from the executable tree into that model, a well-formedness predicate
//! (every assignment target is an identifier), and a node count.
use vstd::prelude::*;

verus! {

broadcast use vstd::std_specs::vec::group_vec_axioms;

/// The integer type of numeric literals.
pub type Num = i64;

/// The binary operators of the language. `Assign` is the only one whose
/// left operand is restricted (it must be an identifier).
#[derive(Debug, PartialEq, Eq, Clone, Copy, Structural)]
pub enum OperatorKind {
    Add,
    Substruct,
    Multiply,
    Divide,
    Less,
    LessEqual,
    Greater,
    GreaterEqual,
    Equal,
    NotEqual,
    Assign,
}

/// An expression or statement form. Statements are expressions followed by
/// `;` in the grammar, so one tagged union carries both.
#[derive(Debug, PartialEq)]
pub enum Expr {
    Num(Num),
    Ident(Vec<u8>),
    BinaryOperation(BinaryOperation),
    Return(Box<Expr>),
    If(Box<Expr>, Box<Expr>, Option<Box<Expr>>),
    While(Box<Expr>, Box<Expr>),
    For(Option<Box<Expr>>, Option<Box<Expr>>, Option<Box<Expr>>, Box<Expr>),
    Block(Vec<Expr>),
}

/// A binary node: an operator applied to two exclusively owned subtrees.
#[derive(Debug, PartialEq)]
pub struct BinaryOperation {
    pub op: OperatorKind,
    pub left: Box<Expr>,
    pub right: Box<Expr>,
}

/// A parsed program: an ordered sequence of statements.
#[derive(Debug, PartialEq)]
pub struct Program {
    pub stmts: Vec<Expr>,
}

/// The mathematical mirror of `Expr`: literals as `int`, identifier names as
/// byte sequences, statement lists as `Seq`.
pub enum ExprModel {
    Num(int),
    Ident(Seq<u8>),
    BinaryOperation(OperatorKind, Box<ExprModel>, Box<ExprModel>),
    Return(Box<ExprModel>),
    If(Box<ExprModel>, Box<ExprModel>, Option<Box<ExprModel>>),
    While(Box<ExprModel>, Box<ExprModel>),
    For(
        Option<Box<ExprModel>>,
        Option<Box<ExprModel>>,
        Option<Box<ExprModel>>,
        Box<ExprModel>,
    ),
    Block(Seq<ExprModel>),
}

impl Expr {
    /// The deep view of an expression tree as its mathematical mirror.
    pub open spec fn model(&self) -> ExprModel
        decreases self,
    {
        match self {
            Expr::Num(n) => ExprModel::Num(*n as int),
            Expr::Ident(name) => ExprModel::Ident(name@),
            Expr::BinaryOperation(b) => ExprModel::BinaryOperation(
                b.op,
                Box::new(b.left.model()),
                Box::new(b.right.model()),
            ),
            Expr::Return(e) => ExprModel::Return(Box::new(e.model())),
            Expr::If(c, t, e) => ExprModel::If(
                Box::new(c.model()),
                Box::new(t.model()),
                match e {
                    Some(e) => Some(Box::new(e.model())),
                    None => None,
                },
            ),
            Expr::While(c, b) => ExprModel::While(Box::new(c.model()), Box::new(b.model())),
            Expr::For(i, c, s, b) => ExprModel::For(
                match i {
                    Some(i) => Some(Box::new(i.model())),
                    None => None,
                },
                match c {
                    Some(c) => Some(Box::new(c.model())),
                    None => None,
                },
                match s {
                    Some(s) => Some(Box::new(s.model())),
                    None => None,
                },
                Box::new(b.model()),
            ),
            Expr::Block(es) => ExprModel::Block(seq_model(es@)),
        }
    }
}

/// The deep view of an optional boxed expression.
pub open spec fn opt_model(o: Option<Box<Expr>>) -> Option<Box<ExprModel>> {
    match o {
        Some(e) => Some(Box::new(e.model())),
        None => None,
    }
}

/// The deep view of a sequence of expression trees.
pub open spec fn seq_model(es: Seq<Expr>) -> Seq<ExprModel>
    decreases es,
{
    if es.len() == 0 {
        Seq::empty()
    } else {
        seq![es[0].model()] + seq_model(es.drop_first())
    }
}

impl Program {
    /// The deep view of a program as the sequence of its statement models.
    pub open spec fn model(&self) -> Seq<ExprModel> {
        seq_model(self.stmts@)
    }
}

impl ExprModel {
    /// Every assignment node has an identifier as its left operand. The
    /// parser's grammar guarantees this shape; the code generator requires it.
    pub open spec fn wf(&self) -> bool
        decreases self,
    {
        match self {
            ExprModel::Num(_) => true,
            ExprModel::Ident(_) => true,
            ExprModel::BinaryOperation(op, l, r) => {
                let target_ok = if op is Assign {
                    match **l {
                        ExprModel::Ident(_) => true,
                        _ => false,
                    }
                } else {
                    true
                };
                target_ok && l.wf() && r.wf()
            },
            ExprModel::Return(e) => e.wf(),
            ExprModel::If(c, t, e) => c.wf() && t.wf() && match e {
                Some(e) => e.wf(),
                None => true,
            },
            ExprModel::While(c, b) => c.wf() && b.wf(),
            ExprModel::For(i, c, s, b) => b.wf() && match i {
                Some(i) => i.wf(),
                None => true,
            } && match c {
                Some(c) => c.wf(),
                None => true,
            } && match s {
                Some(s) => s.wf(),
                None => true,
            },
            ExprModel::Block(es) => seq_wf(*es),
        }
    }

    /// The number of nodes of an expression tree; at least one.
    pub open spec fn size(&self) -> nat
        decreases self,
    {
        match self {
            ExprModel::Num(_) => 1,
            ExprModel::Ident(_) => 1,
            ExprModel::BinaryOperation(_, l, r) => 1 + l.size() + r.size(),
            ExprModel::Return(e) => 1 + e.size(),
            ExprModel::If(c, t, e) => 1 + c.size() + t.size() + match e {
                Some(e) => e.size(),
                None => 0,
            },
            ExprModel::While(c, b) => 1 + c.size() + b.size(),
            ExprModel::For(i, c, s, b) => 1 + b.size() + match i {
                Some(i) => i.size(),
                None => 0,
            } + match c {
                Some(c) => c.size(),
                None => 0,
            } + match s {
                Some(s) => s.size(),
                None => 0,
            },
            ExprModel::Block(es) => 1 + seq_size(*es),
        }
    }
}

/// Well-formedness of every statement in a sequence.
pub open spec fn seq_wf(es: Seq<ExprModel>) -> bool
    decreases es,
{
    if es.len() == 0 {
        true
    } else {
        es[0].wf() && seq_wf(es.drop_first())
    }
}

/// The total node count of a sequence of expression trees.
pub open spec fn seq_size(es: Seq<ExprModel>) -> nat
    decreases es,
{
    if es.len() == 0 {
        0
    } else {
        es[0].size() + seq_size(es.drop_first())
    }
}

impl Expr {
    /// Decides well-formedness of an expression tree: every assignment's
    /// left operand is an identifier.
    pub fn well_formed(&self) -> (r: bool)
        ensures
            r == self.model().wf(),
        decreases self,
    {
        proof {
            reveal_with_fuel(Expr::model, 2);
            reveal_with_fuel(ExprModel::wf, 2);
        }
        match self {
            Expr::Num(_) => true,
            Expr::Ident(_) => true,
            Expr::BinaryOperation(b) => {
                let target_ok = match b.op {
                    OperatorKind::Assign => matches!(&*b.left, Expr::Ident(_)),
                    _ => true,
                };
                target_ok && b.left.well_formed() && b.right.well_formed()
            },
            Expr::Return(e) => e.well_formed(),
            Expr::If(c, t, e) => c.well_formed() && t.well_formed() && match e {
                Some(e) => e.well_formed(),
                None => true,
            },
            Expr::While(c, b) => c.well_formed() && b.well_formed(),
            Expr::For(i, c, s, b) => {
                let init_ok = match i {
                    Some(i) => i.well_formed(),
                    None => true,
                };
                let cond_ok = match c {
                    Some(c) => c.well_formed(),
                    None => true,
                };
                let step_ok = match s {
                    Some(s) => s.well_formed(),
                    None => true,
                };
                b.well_formed() && init_ok && cond_ok && step_ok
            },
            Expr::Block(es) => {
                let mut i: usize = 0;
                let mut ok = true;
                while i < es.len()
                    invariant
                        0 <= i <= es.len(),
                        ok == seq_wf(seq_model(es@).take(i as int)),
                        *self == Expr::Block(*es),
                    decreases es.len() - i,
                {
                    proof {
                        lemma_seq_model_len(es@);
                        lemma_seq_model_index(es@, i as int);
                        lemma_seq_wf_take_step(seq_model(es@), i as int);
                        assert(decreases_to!(*self => self->Block_0));
                        assert(self->Block_0 == *es);
                        assert(decreases_to!(*es => es[i as int]));
                    }
                    ok = ok && es[i].well_formed();
                    i = i + 1;
                }
                proof {
                    lemma_seq_model_len(es@);
                    assert(seq_model(es@).take(es@.len() as int) =~= seq_model(es@));
                }
                ok
            },
        }
    }
}

impl Program {
    /// Decides well-formedness of every statement of the program.
    pub fn well_formed(&self) -> (r: bool)
        ensures
            r == prog_wf(self.model()),
    {
        let mut i: usize = 0;
        let mut ok = true;
        while i < self.stmts.len()
            invariant
                0 <= i <= self.stmts.len(),
                ok == seq_wf(seq_model(self.stmts@).take(i as int)),
            decreases self.stmts.len() - i,
        {
            proof {
                lemma_seq_model_len(self.stmts@);
                lemma_seq_model_index(self.stmts@, i as int);
                lemma_seq_wf_take_step(seq_model(self.stmts@), i as int);
            }
            ok = ok && self.stmts[i].well_formed();
            i = i + 1;
        }
        proof {
            lemma_seq_model_len(self.stmts@);
            assert(seq_model(self.stmts@).take(self.stmts@.len() as int) =~= seq_model(
                self.stmts@,
            ));
        }
        ok
    }
}

/// Well-formedness of a whole program model.
pub open spec fn prog_wf(p: Seq<ExprModel>) -> bool {
    seq_wf(p)
}

/// The deep view of a sequence keeps its length.
pub proof fn lemma_seq_model_len(es: Seq<Expr>)
    ensures
        seq_model(es).len() == es.len(),
    decreases es,
{
    if es.len() > 0 {
        lemma_seq_model_len(es.drop_first());
    }
}

/// The deep view of a sequence is the view of each element.
pub proof fn lemma_seq_model_index(es: Seq<Expr>, i: int)
    requires
        0 <= i < es.len(),
    ensures
        seq_model(es).len() == es.len(),
        seq_model(es)[i] == es[i].model(),
    decreases es,
{
    lemma_seq_model_len(es);
    if i > 0 {
        lemma_seq_model_index(es.drop_first(), i - 1);
    }
}

/// The deep view of a sequence distributes over `push`.
pub proof fn lemma_seq_model_push(es: Seq<Expr>, x: Expr)
    ensures
        seq_model(es.push(x)) == seq_model(es).push(x.model()),
    decreases es,
{
    if es.len() == 0 {
        assert(es.push(x)[0] == x);
        assert(es.push(x).drop_first() =~= Seq::<Expr>::empty());
        assert(seq_model(es.push(x)) == seq![x.model()] + seq_model(Seq::<Expr>::empty()));
        assert(seq_model(es.push(x)) =~= seq_model(es).push(x.model()));
    } else {
        assert(es.push(x)[0] == es[0]);
        assert(es.push(x).drop_first() =~= es.drop_first().push(x));
        lemma_seq_model_push(es.drop_first(), x);
        assert(seq_model(es.push(x)) == seq![es[0].model()] + seq_model(
            es.drop_first().push(x),
        ));
        assert(seq_model(es.push(x)) == seq![es[0].model()] + seq_model(es.drop_first()).push(
            x.model(),
        ));
        assert(seq_model(es) == seq![es[0].model()] + seq_model(es.drop_first()));
        assert(seq_model(es.push(x)) =~= seq_model(es).push(x.model()));
    }
}

/// Well-formedness of a sequence distributes over `push`.
pub proof fn lemma_seq_wf_push(es: Seq<ExprModel>, x: ExprModel)
    ensures
        seq_wf(es.push(x)) == (seq_wf(es) && x.wf()),
    decreases es,
{
    if es.len() == 0 {
        assert(es.push(x)[0] == x);
        assert(es.push(x).drop_first() =~= Seq::<ExprModel>::empty());
        assert(seq_wf(es.push(x)) == (x.wf() && seq_wf(Seq::<ExprModel>::empty())));
    } else {
        assert(es.push(x)[0] == es[0]);
        assert(es.push(x).drop_first() =~= es.drop_first().push(x));
        lemma_seq_wf_push(es.drop_first(), x);
        assert(seq_wf(es.push(x)) == (es[0].wf() && seq_wf(es.drop_first().push(x))));
        assert(seq_wf(es) == (es[0].wf() && seq_wf(es.drop_first())));
    }
}

/// Extending a well-formed prefix by one well-formed statement.
pub proof fn lemma_seq_wf_take_step(es: Seq<ExprModel>, i: int)
    requires
        0 <= i < es.len(),
    ensures
        seq_wf(es.take(i + 1)) == (seq_wf(es.take(i)) && es[i].wf()),
    decreases i,
{
    if i == 0 {
        assert(es.take(1).drop_first() =~= es.take(0));
        assert(seq_wf(es.take(0)));
        assert(es.take(1)[0] == es[0]);
    } else {
        assert(es.take(i + 1)[0] == es[0]);
        assert(es.take(i)[0] == es[0]);
        assert(es.take(i + 1).drop_first() =~= es.drop_first().take(i));
        assert(es.take(i).drop_first() =~= es.drop_first().take(i - 1));
        assert(es.drop_first()[i - 1] == es[i]);
        lemma_seq_wf_take_step(es.drop_first(), i - 1);
    }
}

} // verus!
