//! The environment that the passes and the tree interpreter keep: names
//! bound to expressions, the latest binding of a name counting.

use crate::ast::AstNode;
use crate::ast::bindings_of;
use crate::ast::Expr;
use crate::ast::LetBinding;
use vstd::prelude::*;

verus! {

/// The expression that `name` is bound to: that of its latest binding.
pub open spec fn lookup_spec(s: Seq<(Seq<char>, Expr)>, name: Seq<char>) -> Option<Expr>
    decreases s.len(),
{
    if s.len() == 0 {
        None
    } else if s.last().0 == name {
        Some(s.last().1)
    } else {
        lookup_spec(s.drop_last(), name)
    }
}

/// The integer that `name` stands for, following at most `fuel` bindings
/// from variable to variable.
pub open spec fn chase_spec(s: Seq<(Seq<char>, Expr)>, name: Seq<char>, fuel: nat) -> Option<Expr>
    decreases fuel,
{
    if fuel == 0 {
        None
    } else {
        match lookup_spec(s, name) {
            Some(Expr::Var { name: next }) => chase_spec(s, next, (fuel - 1) as nat),
            Some(Expr::Int(n)) => Some(Expr::Int(n)),
            _ => None,
        }
    }
}

/// The integer literal that `name` stands for: its binding, or that of the
/// variable it is bound to, and so on. A chain of variables longer than the
/// list of bindings repeats a name and stands for nothing.
pub open spec fn value_of_spec(s: Seq<(Seq<char>, Expr)>, name: Seq<char>) -> Option<Expr> {
    chase_spec(s, name, s.len())
}

pub struct Environment {
    map: Vec<LetBinding>,
}

impl View for Environment {
    type V = Seq<(Seq<char>, Expr)>;

    closed spec fn view(&self) -> Seq<(Seq<char>, Expr)> {
        bindings_of(self.map@)
    }
}

impl Environment {
    pub fn new() -> (r: Self)
        ensures
            r@ == Seq::<(Seq<char>, Expr)>::empty(),
    {
        let r = Environment { map: Vec::new() };
        assert(r@ =~= Seq::empty());
        r
    }

    /// Where the latest binding of `id` stands.
    fn find(&self, id: &String) -> (r: Option<usize>)
        ensures
            r is Some <==> lookup_spec(self@, id@) is Some,
            r matches Some(i) ==> i < self.map@.len() && self.map@[i as int].identifier@ == id@
                && lookup_spec(self@, id@) == Some(self.map@[i as int].expr@),
    {
        let mut j: usize = self.map.len();
        assert(self@.take(j as int) =~= self@);
        while j > 0
            invariant
                j <= self.map@.len(),
                lookup_spec(self@, id@) == lookup_spec(self@.take(j as int), id@),
            decreases j,
        {
            let ghost head = self@.take(j as int);
            assert(head.last() == self@[j - 1]);
            assert(head.drop_last() =~= self@.take(j - 1));
            if self.map[j - 1].identifier == *id {
                return Some(j - 1);
            }
            j -= 1;
        }
        None
    }

    /// Whether `id` is bound.
    pub fn contains(&self, id: &String) -> (r: bool)
        ensures
            r == lookup_spec(self@, id@) is Some,
    {
        self.find(id).is_some()
    }

    /// Binds `id` to `val`; an earlier binding of `id` no longer counts.
    pub fn insert(&mut self, id: String, val: AstNode)
        ensures
            final(self)@ == old(self)@.push((id@, val@)),
    {
        self.map.push(LetBinding { identifier: id, expr: val });
        assert(final(self)@ =~= old(self)@.push((id@, val@)));
    }

    /// The expression that `id` is bound to.
    pub fn get(&self, id: &String) -> (r: Option<&AstNode>)
        ensures
            r is Some <==> lookup_spec(self@, id@) is Some,
            r matches Some(v) ==> lookup_spec(self@, id@) == Some(v@),
    {
        match self.find(id) {
            Some(i) => Some(&self.map[i].expr),
            None => None,
        }
    }

    /// The integer literal that `id` stands for, through variables bound to
    /// variables.
    pub fn get_value_of(&self, id: &String) -> (r: Option<&AstNode>)
        ensures
            r is Some <==> value_of_spec(self@, id@) is Some,
            r matches Some(v) ==> value_of_spec(self@, id@) == Some(v@),
    {
        let mut fuel: usize = self.map.len();
        let mut name: &String = id;
        while fuel > 0
            invariant
                fuel <= self.map@.len(),
                value_of_spec(self@, id@) == chase_spec(self@, name@, fuel as nat),
            decreases fuel,
        {
            match self.find(name) {
                Some(i) => {
                    match &self.map[i].expr {
                        AstNode::Var { name: next } => {
                            name = next;
                        },
                        AstNode::Int(_) => {
                            return Some(&self.map[i].expr);
                        },
                        _ => {
                            return None;
                        },
                    }
                },
                None => {
                    return None;
                },
            }
            fuel -= 1;
        }
        None
    }
}

} // verus!
