use vstd::prelude::*;

use crate::frame::Frame;
use crate::symbol::Symbol;
use crate::text::append;

verus! {

/// A function value: the frame it closes over, its parameters in order, and its body.
#[derive(Debug)]
pub struct Lambda<V> {
    pub closure: Frame<V>,
    pub argnames: Vec<Symbol>,
    pub body: Box<V>,
}

/// The bindings of parameters to arguments by position; a later parameter of
/// the same name wins.
pub open spec fn bind_spec<V>(names: Seq<Symbol>, vals: Seq<V>) -> Map<Seq<char>, V>
    decreases names.len(),
{
    if names.len() == 0 || vals.len() == 0 {
        Map::empty()
    } else {
        bind_spec(names.drop_last(), vals.drop_last()).insert(names.last()@, vals.last())
    }
}

/// The parameter names separated by single spaces.
pub open spec fn joined_names(names: Seq<Symbol>) -> Seq<char>
    decreases names.len(),
{
    if names.len() == 0 {
        Seq::empty()
    } else if names.len() == 1 {
        names[0]@
    } else {
        joined_names(names.drop_last()) + " "@ + names.last()@
    }
}

impl<V> Lambda<V> {
    pub fn new(closure: Frame<V>, argnames: Vec<Symbol>, body: Box<V>) -> (r: Lambda<V>)
        ensures
            r.closure == closure,
            r.argnames == argnames,
            r.body == body,
    {
        Lambda { closure, argnames, body }
    }

    /// The parameter list as written: names separated by spaces, in parentheses.
    pub fn parameter_list(&self) -> (r: String)
        ensures
            r@ == "("@ + joined_names(self.argnames@) + ")"@,
    {
        let ghost names = self.argnames@;
        proof {
            reveal_strlit("(");
        }
        let mut text = "(".to_owned();
        let n = self.argnames.len();
        let mut i: usize = 0;
        assert(names.take(0) =~= Seq::<Symbol>::empty());
        while i < n
            invariant
                n == names.len(),
                names == self.argnames@,
                i <= n,
                text@ == "("@ + joined_names(names.take(i as int)),
            decreases n - i,
        {
            assert(names.take(i + 1).drop_last() =~= names.take(i as int));
            if i > 0 {
                append(&mut text, " ");
            }
            append(&mut text, self.argnames[i].name());
            assert(text@ =~= "("@ + joined_names(names.take(i + 1)));
            i = i + 1;
        }
        append(&mut text, ")");
        assert(names.take(n as int) =~= names);
        text
    }

    /// The frame that a call with `args` runs in, atop the closure's frame:
    /// each parameter bound to the argument at its position.
    pub fn bind_arguments(&self, args: Vec<V>) -> (r: Frame<V>)
        requires
            args@.len() == self.argnames@.len(),
        ensures
            r.wf(),
            r@ == bind_spec(self.argnames@, args@),
    {
        let ghost names = self.argnames@;
        let ghost vals = args@;
        let mut rest = args;
        let mut frame = Frame::new();
        let n = self.argnames.len();
        let mut i: usize = 0;
        assert(names.take(0) =~= Seq::<Symbol>::empty());
        while i < n
            invariant
                n == names.len(),
                names == self.argnames@,
                vals.len() == n,
                i <= n,
                rest@ == vals.subrange(i as int, n as int),
                frame.wf(),
                frame@ == bind_spec(names.take(i as int), vals.take(i as int)),
            decreases n - i,
        {
            let v = rest.remove(0);
            assert(v == vals[i as int]);
            let name = Symbol(self.argnames[i].0.clone());
            frame.set(name, v);
            assert(names.take(i + 1).drop_last() =~= names.take(i as int));
            assert(vals.take(i + 1).drop_last() =~= vals.take(i as int));
            assert(rest@ =~= vals.subrange(i + 1, n as int));
            i = i + 1;
        }
        assert(names.take(n as int) =~= names);
        assert(vals.take(n as int) =~= vals);
        frame
    }
}

} // verus!
