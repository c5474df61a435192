use vstd::prelude::*;

verus! {

broadcast use vstd::std_specs::vec::group_vec_axioms;

/// The mathematical model of a parsed pattern.
pub enum Re {
    Char(char),
    Plus(Box<Re>),
    Star(Box<Re>),
    Question(Box<Re>),
    Or(Box<Re>, Box<Re>),
    Sequence(Seq<Re>),
}

/// A parsed pattern.
#[derive(Debug)]
pub enum AST {
    Char(char),
    Plus(Box<AST>),
    Star(Box<AST>),
    Question(Box<AST>),
    Or(Box<AST>, Box<AST>),
    Sequence(Vec<AST>),
}

impl AST {
    pub open spec fn view(&self) -> Re
        decreases self,
    {
        match self {
            AST::Char(c) => Re::Char(*c),
            AST::Plus(a) => Re::Plus(Box::new(a.view())),
            AST::Star(a) => Re::Star(Box::new(a.view())),
            AST::Question(a) => Re::Question(Box::new(a.view())),
            AST::Or(a, b) => Re::Or(Box::new(a.view()), Box::new(b.view())),
            AST::Sequence(v) => Re::Sequence(
                Seq::new(
                    v.len() as nat,
                    |i: int|
                        if 0 <= i < v.len() {
                            v[i].view()
                        } else {
                            Re::Char(' ')
                        },
                ),
            ),
        }
    }
}

/// The models of a list of patterns.
pub open spec fn views(v: Seq<AST>) -> Seq<Re> {
    Seq::new(v.len(), |i: int| v[i]@)
}

} // verus!
