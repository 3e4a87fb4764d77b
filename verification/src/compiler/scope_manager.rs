//! The scope tracker: a stack of frames, each mapping variable names to
//! storage slots.
//!
//! A frame is pushed on function entry and popped on exit. Lookups search
//! the innermost frame first, and within a frame the latest binding wins,
//! so shadowing works both across frames and within one. The tracker
//! holds only slot indices; the slots themselves belong to the function
//! being generated.

use vstd::prelude::*;

use crate::chars::same_text;

verus! {

/// One frame's view: its bindings in the order they were made.
pub type FrameView = Seq<(Seq<char>, usize)>;

/// The whole tracker's view: frames from outermost to innermost.
pub type ScopesView = Seq<FrameView>;

/// The slot a name is bound to in one frame: the latest binding wins.
pub open spec fn frame_lookup(frame: FrameView, name: Seq<char>) -> Option<usize>
    decreases frame.len(),
{
    if frame.len() == 0 {
        None
    } else if frame.last().0 == name {
        Some(frame.last().1)
    } else {
        frame_lookup(frame.drop_last(), name)
    }
}

/// The slot a name resolves to: the innermost frame that binds it wins.
pub open spec fn scopes_lookup(scopes: ScopesView, name: Seq<char>) -> Option<usize>
    decreases scopes.len(),
{
    if scopes.len() == 0 {
        None
    } else {
        match frame_lookup(scopes.last(), name) {
            Some(slot) => Some(slot),
            None => scopes_lookup(scopes.drop_last(), name),
        }
    }
}

/// The scope tracker.
#[derive(Debug)]
pub struct ScopeManager {
    pub scopes: Vec<Vec<(Vec<char>, usize)>>,
}

impl View for ScopeManager {
    type V = ScopesView;

    open spec fn view(&self) -> ScopesView {
        self.scopes@.map_values(
            |frame: Vec<(Vec<char>, usize)>|
                frame@.map_values(|b: (Vec<char>, usize)| (b.0@, b.1)),
        )
    }
}

impl ScopeManager {
    /// A tracker with no scopes entered yet.
    pub fn new() -> (sm: ScopeManager)
        ensures
            sm@ =~= Seq::<FrameView>::empty(),
    {
        let sm = ScopeManager { scopes: Vec::new() };
        proof {
            assert(sm@ =~= Seq::<FrameView>::empty());
        }
        sm
    }

    /// Enter a scope: push an empty frame.
    pub fn enter_scope(&mut self)
        ensures
            final(self)@ == old(self)@.push(Seq::empty()),
    {
        let frame: Vec<(Vec<char>, usize)> = Vec::new();
        self.scopes.push(frame);
        proof {
            assert(final(self)@ =~~= old(self)@.push(Seq::empty()));
        }
    }

    /// Leave the innermost scope: pop its frame.
    pub fn exit_scope(&mut self)
        requires
            old(self)@.len() > 0,
        ensures
            final(self)@ == old(self)@.drop_last(),
    {
        let _ = self.scopes.pop();
        proof {
            assert(final(self)@ =~~= old(self)@.drop_last());
        }
    }

    /// Bind a name to a slot in the innermost frame; a newer binding
    /// shadows an older one of the same name.
    pub fn set_var(&mut self, name: Vec<char>, slot: usize)
        requires
            old(self)@.len() > 0,
        ensures
            final(self)@ == old(self)@.update(
                old(self)@.len() - 1,
                old(self)@.last().push((name@, slot)),
            ),
    {
        let ghost nv = name@;
        let top = self.scopes.len() - 1;
        let frame = &mut self.scopes[top];
        frame.push((name, slot));
        proof {
            assert(final(self)@ =~~= old(self)@.update(
                old(self)@.len() - 1,
                old(self)@.last().push((nv, slot)),
            ));
        }
    }

    /// The slot a name resolves to, innermost scope first.
    #[verifier::loop_isolation(false)]
    pub fn get_var(&self, name: &Vec<char>) -> (r: Option<usize>)
        ensures
            r == scopes_lookup(self@, name@),
    {
        let mut i = self.scopes.len();
        proof {
            assert(self@.subrange(0, i as int) =~= self@);
        }
        while i > 0
            invariant
                i <= self.scopes.len(),
                self@.len() == self.scopes.len(),
                scopes_lookup(self@, name@) == scopes_lookup(self@.subrange(0, i as int), name@),
            decreases i,
        {
            i = i - 1;
            let frame = &self.scopes[i];
            let mut j = frame.len();
            let ghost fv = self@[i as int];
            proof {
                assert(fv == frame@.map_values(|b: (Vec<char>, usize)| (b.0@, b.1)));
                assert(fv.subrange(0, j as int) =~= fv);
            }
            while j > 0
                invariant
                    j <= frame.len(),
                    fv.len() == frame.len(),
                    fv == frame@.map_values(|b: (Vec<char>, usize)| (b.0@, b.1)),
                    frame_lookup(fv, name@) == frame_lookup(fv.subrange(0, j as int), name@),
                decreases j,
            {
                j = j - 1;
                if same_text(&frame[j].0, name) {
                    proof {
                        assert(fv.subrange(0, j + 1 as int).last() == fv[j as int]);
                        assert(fv[j as int].0 == name@);
                        assert(frame_lookup(fv, name@) == Some(fv[j as int].1));
                        assert(self@.subrange(0, i + 1 as int).last() == fv);
                        assert(scopes_lookup(self@.subrange(0, i + 1 as int), name@) == Some(
                            fv[j as int].1,
                        ));
                    }
                    return Some(frame[j].1);
                }
                proof {
                    assert(fv.subrange(0, j + 1 as int).drop_last() =~= fv.subrange(0, j as int));
                    assert(fv.subrange(0, j + 1 as int).last() == fv[j as int]);
                }
            }
            proof {
                assert(fv.subrange(0, 0) =~= Seq::<(Seq<char>, usize)>::empty());
                assert(frame_lookup(fv, name@) is None);
                assert(self@.subrange(0, i + 1 as int).last() == fv);
                assert(self@.subrange(0, i + 1 as int).drop_last() =~= self@.subrange(0, i as int));
            }
        }
        proof {
            assert(self@.subrange(0, 0) =~= Seq::<FrameView>::empty());
        }
        None
    }
}

} // verus!
