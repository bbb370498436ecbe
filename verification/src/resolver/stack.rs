//! The lexical symbol stack used while building resolution queries.
use crate::assoc::AssocMap;
use crate::model::queries::Query;
use vstd::prelude::*;

verus! {

/// One lexical scope frame: local names bound to the query they stand for.
pub struct StackFrame {
    pub symbols: AssocMap<String, Query>,
}

impl StackFrame {
    pub open spec fn wf(&self) -> bool {
        self.symbols.wf()
    }

    pub open spec fn map(&self) -> Map<Seq<char>, Query> {
        self.symbols.map()
    }

    /// An empty frame.
    pub fn new() -> (r: StackFrame)
        ensures
            r.wf(),
            r.map() == Map::<Seq<char>, Query>::empty(),
    {
        StackFrame { symbols: AssocMap::new() }
    }
}

impl Default for StackFrame {
    /// An empty frame.
    fn default() -> (r: StackFrame)
        ensures
            r.wf(),
            r.map() == Map::<Seq<char>, Query>::empty(),
    {
        StackFrame::new()
    }
}

/// The stack of lexical frames, the innermost last.
pub struct SymbolStack {
    pub frames: Vec<StackFrame>,
}

/// The first binding of `name`, looking from the innermost frame outwards.
pub open spec fn lookup_frames(frames: Seq<StackFrame>, name: Seq<char>) -> Option<Query>
    decreases frames.len(),
{
    if frames.len() == 0 {
        None
    } else if frames.last().map().dom().contains(name) {
        Some(frames.last().map()[name])
    } else {
        lookup_frames(frames.drop_last(), name)
    }
}

impl SymbolStack {
    pub open spec fn wf(&self) -> bool {
        forall|i: int| 0 <= i < self.frames@.len() ==> (#[trigger] self.frames@[i]).wf()
    }

    /// The frames as maps, outermost first.
    pub open spec fn view_frames(&self) -> Seq<Map<Seq<char>, Query>> {
        self.frames@.map_values(|f: StackFrame| f.map())
    }

    /// An empty stack.
    pub fn new() -> (r: SymbolStack)
        ensures
            r.wf(),
            r.frames@.len() == 0,
    {
        SymbolStack { frames: Vec::new() }
    }

    /// Enters a new lexical scope by pushing an empty frame.
    pub fn push_scope(&mut self)
        requires
            old(self).wf(),
        ensures
            final(self).wf(),
            final(self).view_frames() == old(self).view_frames().push(Map::<Seq<char>, Query>::empty()),
    {
        self.frames.push(StackFrame::new());
        assert(self.view_frames() =~= old(self).view_frames().push(Map::<Seq<char>, Query>::empty()));
    }

    /// Leaves the current scope, dropping all its local symbols.
    pub fn pop_scope(&mut self)
        requires
            old(self).wf(),
        ensures
            final(self).wf(),
            final(self).view_frames() == if old(self).frames@.len() == 0 {
                old(self).view_frames()
            } else {
                old(self).view_frames().drop_last()
            },
    {
        if self.frames.len() > 0 {
            self.frames.pop();
            assert(self.view_frames() =~= old(self).view_frames().drop_last());
        }
    }

    /// The current (innermost) frame, if any.
    pub fn current_frame_mut(&mut self) -> (r: Option<&mut StackFrame>)
        ensures
            match r {
                Some(f) => {
                    &&& old(self).frames@.len() > 0
                    &&& *f == old(self).frames@.last()
                    &&& final(self).frames@ == old(self).frames@.update(
                        old(self).frames@.len() - 1,
                        *final(f),
                    )
                },
                None => old(self).frames@.len() == 0 && final(self).frames@ == old(self).frames@,
            },
    {
        let n = self.frames.len();
        if n == 0 {
            None
        } else {
            Some(&mut self.frames[n - 1])
        }
    }

    /// Binds `local_name` to `query` in the current frame (no effect on an empty stack).
    pub fn define_symbol(&mut self, local_name: String, query: Query)
        requires
            old(self).wf(),
        ensures
            final(self).wf(),
            final(self).view_frames() == if old(self).frames@.len() == 0 {
                old(self).view_frames()
            } else {
                old(self).view_frames().update(
                    old(self).frames@.len() - 1,
                    old(self).view_frames().last().insert(local_name@, query),
                )
            },
    {
        let n = self.frames.len();
        if n > 0 {
            let mut frame = self.frames.pop().unwrap();
            frame.symbols.insert(local_name, query);
            self.frames.push(frame);
            assert(self.view_frames() =~= old(self).view_frames().update(
                n - 1,
                old(self).view_frames().last().insert(local_name@, query),
            ));
        }
    }

    /// The frames from the innermost to the outermost.
    pub fn iter_frames_top_down(&self) -> (r: Vec<&StackFrame>)
        ensures
            r@.len() == self.frames@.len(),
            forall|i: int|
                0 <= i < r@.len() ==> *#[trigger] r@[i] == self.frames@[self.frames@.len() - 1 - i],
    {
        let mut out: Vec<&StackFrame> = Vec::new();
        let mut i = self.frames.len();
        while i > 0
            invariant
                i <= self.frames@.len(),
                out@.len() == self.frames@.len() - i,
                forall|j: int|
                    0 <= j < out@.len() ==> *#[trigger] out@[j] == self.frames@[self.frames@.len()
                        - 1 - j],
            decreases i,
        {
            i -= 1;
            out.push(&self.frames[i]);
        }
        out
    }

    /// The query bound to `name` in the innermost frame that binds it.
    pub fn lookup(&self, name: &String) -> (r: Option<&Query>)
        requires
            self.wf(),
        ensures
            match r {
                Some(q) => lookup_frames(self.frames@, name@) == Some(*q),
                None => lookup_frames(self.frames@, name@) is None,
            },
    {
        let mut i = self.frames.len();
        assert(self.frames@.take(i as int) == self.frames@);
        while i > 0
            invariant
                self.wf(),
                i <= self.frames@.len(),
                lookup_frames(self.frames@, name@) == lookup_frames(self.frames@.take(i as int), name@),
            decreases i,
        {
            let ghost pre = self.frames@.take(i as int);
            assert(pre.last() == self.frames@[i - 1]);
            assert(pre.drop_last() == self.frames@.take(i - 1));
            match self.frames[i - 1].symbols.get(name) {
                Some(q) => {
                    return Some(q);
                },
                None => {},
            }
            i -= 1;
        }
        None
    }
}

impl Default for SymbolStack {
    /// An empty stack.
    fn default() -> (r: SymbolStack)
        ensures
            r.wf(),
            r.frames@.len() == 0,
    {
        SymbolStack::new()
    }
}

} // verus!
