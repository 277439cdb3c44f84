use vstd::prelude::*;

use crate::frame::Frame;
use crate::runtime_error::{stack_underflow_message, undefined_symbol_message, RuntimeError};
use crate::symbol::Symbol;

verus! {

/// A scope chain seen as its frames' mappings, outermost first.
pub type Scopes<V> = Seq<Map<Seq<char>, V>>;

/// Index of the innermost frame that binds `k`.
pub open spec fn nearest<V>(fs: Scopes<V>, k: Seq<char>) -> Option<int>
    decreases fs.len(),
{
    if fs.len() == 0 {
        None
    } else if fs.last().contains_key(k) {
        Some(fs.len() - 1)
    } else {
        nearest(fs.drop_last(), k)
    }
}

/// The value that `k` resolves to: its binding in the innermost frame that has one.
pub open spec fn lookup<V>(fs: Scopes<V>, k: Seq<char>) -> Option<V> {
    match nearest(fs, k) {
        Some(i) => Some(fs[i][k]),
        None => None,
    }
}

/// The chain after binding `k` to `v` in the innermost frame (unchanged when there is none).
pub open spec fn define<V>(fs: Scopes<V>, k: Seq<char>, v: V) -> Scopes<V> {
    if fs.len() == 0 {
        fs
    } else {
        fs.update(fs.len() - 1, fs.last().insert(k, v))
    }
}

/// The chain after rebinding `k` to `v` in the innermost frame that binds it.
pub open spec fn assign<V>(fs: Scopes<V>, k: Seq<char>, v: V) -> Scopes<V> {
    match nearest(fs, k) {
        Some(i) => fs.update(i, fs[i].insert(k, v)),
        None => fs,
    }
}

/// The chain after removing `k` from the innermost frame that binds it.
pub open spec fn unbind<V>(fs: Scopes<V>, k: Seq<char>) -> Scopes<V> {
    match nearest(fs, k) {
        Some(i) => fs.update(i, fs[i].remove(k)),
        None => fs,
    }
}

/// What `nearest` finds binds `k`, and no frame inside it does; when it finds
/// nothing, no frame binds `k`.
pub proof fn lemma_nearest_bounds<V>(fs: Scopes<V>, k: Seq<char>)
    ensures
        match nearest(fs, k) {
            Some(i) => 0 <= i < fs.len() && fs[i].contains_key(k) && forall|j: int|
                i < j < fs.len() ==> !(#[trigger] fs[j]).contains_key(k),
            None => forall|j: int| 0 <= j < fs.len() ==> !(#[trigger] fs[j]).contains_key(k),
        },
    decreases fs.len(),
{
    if fs.len() > 0 && !fs.last().contains_key(k) {
        lemma_nearest_bounds(fs.drop_last(), k);
        assert forall|j: int| 0 <= j < fs.len() - 1 implies #[trigger] fs[j] == fs.drop_last()[j] by {}
    }
}

/// The scope chain of an evaluation: a stack of frames, innermost last.
#[derive(Debug)]
pub struct Env<V> {
    frames: Vec<Frame<V>>,
}

impl<V> View for Env<V> {
    type V = Scopes<V>;

    closed spec fn view(&self) -> Scopes<V> {
        self.frames@.map_values(|f: Frame<V>| f@)
    }
}

impl<V> Env<V> {
    /// Every frame binds each symbol at most once.
    pub closed spec fn wf(&self) -> bool {
        forall|i: int| 0 <= i < self.frames@.len() ==> (#[trigger] self.frames@[i]).wf()
    }

    /// An environment with no frames.
    pub fn new() -> (r: Env<V>)
        ensures
            r.wf(),
            r@ == Seq::<Map<Seq<char>, V>>::empty(),
    {
        let r = Env { frames: Vec::new() };
        assert(r@ =~= Seq::<Map<Seq<char>, V>>::empty());
        r
    }

    /// The frames, outermost first.
    pub fn frames(&self) -> (r: &Vec<Frame<V>>)
        requires
            self.wf(),
        ensures
            r@.map_values(|f: Frame<V>| f@) == self@,
            forall|i: int| 0 <= i < r@.len() ==> (#[trigger] r@[i]).wf(),
    {
        &self.frames
    }

    /// Pushes `frame` as the new innermost scope.
    pub fn add_frame(&mut self, frame: Frame<V>)
        requires
            old(self).wf(),
            frame.wf(),
        ensures
            final(self).wf(),
            final(self)@ == old(self)@.push(frame@),
    {
        self.frames.push(frame);
        assert(self@ =~= old(self)@.push(frame@));
    }

    /// Pushes an empty frame as the new innermost scope.
    pub fn add_default_frame(&mut self)
        requires
            old(self).wf(),
        ensures
            final(self).wf(),
            final(self)@ == old(self)@.push(Map::empty()),
    {
        let frame = Frame::new();
        self.add_frame(frame);
    }

    /// Removes the innermost frame and hands it back; fails on an empty environment.
    pub fn pop_frame(&mut self) -> (r: Result<Frame<V>, RuntimeError>)
        requires
            old(self).wf(),
        ensures
            final(self).wf(),
            old(self)@.len() == 0 ==> final(self)@ == old(self)@ && (r matches Err(e)
                && e.message@ == stack_underflow_message()),
            old(self)@.len() > 0 ==> final(self)@ == old(self)@.drop_last() && (r matches Ok(f)
                && f.wf() && f@ == old(self)@.last()),
    {
        match self.frames.pop() {
            Some(frame) => {
                assert(self@ =~= old(self)@.drop_last());
                Ok(frame)
            },
            None => Err(RuntimeError::stack_underflow()),
        }
    }

    /// Index of the innermost frame that binds `symbol`.
    fn nearest_frame_index(&self, symbol: &Symbol) -> (r: Option<usize>)
        requires
            self.wf(),
        ensures
            r matches Some(i) ==> i < self.frames@.len() && nearest(self@, symbol@) == Some(i as int),
            r is None ==> nearest(self@, symbol@) is None,
    {
        let mut i: usize = self.frames.len();
        assert(self@.subrange(0, i as int) =~= self@);
        while i > 0
            invariant
                i <= self.frames@.len(),
                self.wf(),
                nearest(self@, symbol@) == nearest(self@.subrange(0, i as int), symbol@),
            decreases i,
        {
            let ghost before = self@.subrange(0, i as int);
            assert(before.drop_last() =~= self@.subrange(0, i - 1));
            if self.frames[i - 1].has(symbol) {
                return Some(i - 1);
            }
            i = i - 1;
        }
        None
    }

    /// Resolves `symbol`, innermost frame first.
    pub fn get(&self, symbol: &Symbol) -> (r: Option<&V>)
        requires
            self.wf(),
        ensures
            r matches Some(v) ==> lookup(self@, symbol@) == Some(*v),
            r is None ==> lookup(self@, symbol@) is None,
    {
        proof {
            lemma_nearest_bounds(self@, symbol@);
        }
        match self.nearest_frame_index(symbol) {
            Some(i) => {
                assert(self.frames@[i as int].wf());
                self.frames[i].get(symbol)
            },
            None => None,
        }
    }

    /// Binds `symbol` to `value` in the innermost frame; without frames it does nothing.
    pub fn set(&mut self, symbol: Symbol, value: V)
        requires
            old(self).wf(),
        ensures
            final(self).wf(),
            final(self)@ == define(old(self)@, symbol@, value),
    {
        let n = self.frames.len();
        if n > 0 {
            assert(self.frames@[n - 1].wf());
            self.frames[n - 1].set(symbol, value);
            assert(self@ =~= define(old(self)@, symbol@, value));
        }
    }

    /// Rebinds `symbol` to `value` in the innermost frame that binds it; fails,
    /// changing nothing, where no frame does.
    pub fn update(&mut self, symbol: Symbol, value: V) -> (r: Result<(), RuntimeError>)
        requires
            old(self).wf(),
        ensures
            final(self).wf(),
            final(self)@ == assign(old(self)@, symbol@, value),
            r is Ok <==> nearest(old(self)@, symbol@) is Some,
            r matches Err(e) ==> e.message@ == undefined_symbol_message(symbol@),
    {
        match self.nearest_frame_index(&symbol) {
            Some(i) => {
                assert(self.frames@[i as int].wf());
                self.frames[i].set(symbol, value);
                assert(self@ =~= assign(old(self)@, symbol@, value));
                Ok(())
            },
            None => Err(RuntimeError::undefined_symbol(&symbol)),
        }
    }

    /// Removes the binding of `symbol` from the innermost frame that binds it;
    /// does nothing where no frame does.
    pub fn delete(&mut self, symbol: &Symbol)
        requires
            old(self).wf(),
        ensures
            final(self).wf(),
            final(self)@ == unbind(old(self)@, symbol@),
    {
        if let Some(i) = self.nearest_frame_index(symbol) {
            assert(self.frames@[i as int].wf());
            self.frames[i].delete(symbol);
            assert(self@ =~= unbind(old(self)@, symbol@));
        }
    }
}

impl<V> Default for Env<V> {
    fn default() -> (r: Env<V>)
        ensures
            r.wf(),
            r@ == Seq::<Map<Seq<char>, V>>::empty(),
    {
        Env::new()
    }
}

} // verus!
