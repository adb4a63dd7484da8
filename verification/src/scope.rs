//! The layered variable scope chain: an ordered stack of frames, one global
//! frame at the bottom, one frame per recipe invocation and one per loop
//! iteration. Lookup walks innermost-to-outermost; a plain assignment binds
//! in the innermost frame and shadows, never mutates, an outer binding; the
//! explicit global-write form binds in the outermost frame.

use crate::text::bytes_eq;
use crate::value::Value;
use crate::value::ValueView;
use vstd::prelude::*;

verus! {

/// One binding frame: name/value pairs in binding order (later bindings of
/// the same name shadow earlier ones).
pub type FrameView = Seq<(Seq<u8>, ValueView)>;

/// The most recent binding of `name` in one frame.
pub open spec fn frame_find(f: FrameView, name: Seq<u8>) -> Option<ValueView>
    decreases f.len(),
{
    if f.len() == 0 {
        Option::None
    } else if f.last().0 == name {
        Option::Some(f.last().1)
    } else {
        frame_find(f.drop_last(), name)
    }
}

/// The innermost binding of `name` in the whole chain (the last frame is
/// the innermost).
pub open spec fn chain_find(frames: Seq<FrameView>, name: Seq<u8>) -> Option<ValueView>
    decreases frames.len(),
{
    if frames.len() == 0 {
        Option::None
    } else {
        match frame_find(frames.last(), name) {
            Option::Some(v) => Option::Some(v),
            Option::None => chain_find(frames.drop_last(), name),
        }
    }
}

/// The variable scope chain.
#[derive(Debug)]
pub struct Scopes {
    pub frames: Vec<Vec<(Vec<u8>, Value)>>,
}

impl View for Scopes {
    type V = Seq<FrameView>;

    open spec fn view(&self) -> Seq<FrameView> {
        self.frames@.map_values(
            |f: Vec<(Vec<u8>, Value)>| f@.map_values(|e: (Vec<u8>, Value)| (e.0@, e.1@)),
        )
    }
}

impl Scopes {
    /// The chain always holds at least the global frame.
    pub open spec fn wf(&self) -> bool {
        self@.len() >= 1
    }

    /// A fresh chain holding one empty global frame.
    pub fn new() -> (r: Scopes)
        ensures
            r.wf(),
            r@ =~~= seq![Seq::<(Seq<u8>, ValueView)>::empty()],
    {
        let mut frames: Vec<Vec<(Vec<u8>, Value)>> = Vec::new();
        frames.push(Vec::new());
        Scopes { frames }
    }

    /// Opens a new innermost frame.
    pub fn push_frame(&mut self)
        ensures
            final(self)@ =~~= old(self)@.push(Seq::<(Seq<u8>, ValueView)>::empty()),
            final(self).wf(),
    {
        self.frames.push(Vec::new());
    }

    /// Closes the innermost frame; the global frame is never closed.
    pub fn pop_frame(&mut self)
        requires
            old(self)@.len() > 1,
        ensures
            final(self)@ =~= old(self)@.drop_last(),
            final(self).wf(),
    {
        let _ = self.frames.pop();
    }

    /// Binds `name` in the innermost frame, shadowing any outer binding.
    pub fn set_local(&mut self, name: Vec<u8>, value: Value)
        requires
            old(self).wf(),
        ensures
            final(self)@ =~~= old(self)@.update(
                old(self)@.len() - 1,
                old(self)@.last().push((name@, value@)),
            ),
            final(self).wf(),
    {
        let last: usize = self.frames.len() - 1;
        let frame = &mut self.frames[last];
        frame.push((name, value));
    }

    /// Binds `name` in the outermost (global) frame, altering what outer
    /// scopes observe.
    pub fn set_global(&mut self, name: Vec<u8>, value: Value)
        requires
            old(self).wf(),
        ensures
            final(self)@ =~~= old(self)@.update(0, old(self)@[0].push((name@, value@))),
            final(self).wf(),
    {
        let frame = &mut self.frames[0];
        frame.push((name, value));
    }

    /// Looks `name` up, innermost scope first.
    pub fn lookup(&self, name: &[u8]) -> (r: Option<Value>)
        ensures
            match r {
                Option::Some(v) => chain_find(self@, name@) == Option::Some(v@),
                Option::None => chain_find(self@, name@) == Option::None::<ValueView>,
            },
    {
        let ghost cv = self@;
        let mut fi: usize = self.frames.len();
        proof {
            assert(cv.subrange(0, cv.len() as int) =~= cv);
        }
        while fi > 0
            invariant
                fi <= self.frames.len(),
                cv == self@,
                chain_find(cv, name@) == chain_find(cv.subrange(0, fi as int), name@),
            decreases fi,
        {
            fi -= 1;
            let ghost sub = cv.subrange(0, fi as int + 1);
            let frame = &self.frames[fi];
            let ghost fv = cv[fi as int];
            proof {
                assert(sub.last() == fv);
                assert(sub.drop_last() =~= cv.subrange(0, fi as int));
            }
            let mut ei: usize = frame.len();
            proof {
                assert(fv.subrange(0, fv.len() as int) =~= fv);
                assert(fv.len() == frame@.len());
            }
            while ei > 0
                invariant
                    ei <= frame@.len(),
                    fv == cv[fi as int],
                    fi < cv.len(),
                    cv == self@,
                    fv.len() == frame@.len(),
                    frame == &self.frames[fi as int],
                    frame_find(fv, name@) == frame_find(fv.subrange(0, ei as int), name@),
                    chain_find(cv, name@) == chain_find(cv.subrange(0, fi as int + 1), name@),
                decreases ei,
            {
                ei -= 1;
                proof {
                    assert(fv[ei as int] == (frame@[ei as int].0@, frame@[ei as int].1@));
                    assert(fv.subrange(0, ei + 1).last() == fv[ei as int]);
                    assert(fv.subrange(0, ei + 1).drop_last() =~= fv.subrange(0, ei as int));
                }
                if bytes_eq(frame[ei].0.as_slice(), name) {
                    let v = frame[ei].1.duplicate();
                    proof {
                        assert(fv[ei as int].0 == name@);
                        assert(frame_find(fv.subrange(0, ei + 1), name@) == Option::Some(
                            fv[ei as int].1,
                        ));
                        assert(frame_find(fv, name@) == Option::Some(fv[ei as int].1));
                        assert(cv.subrange(0, fi as int + 1).last() == fv);
                        assert(chain_find(cv.subrange(0, fi as int + 1), name@) == Option::Some(
                            fv[ei as int].1,
                        ));
                        assert(v@ == fv[ei as int].1);
                    }
                    return Some(v);
                }
            }
            proof {
                assert(fv.subrange(0, 0) =~= Seq::<(Seq<u8>, ValueView)>::empty());
                assert(frame_find(fv, name@) == Option::None::<ValueView>);
                assert(cv.subrange(0, fi as int + 1).last() == fv);
                assert(cv.subrange(0, fi as int + 1).drop_last() =~= cv.subrange(0, fi as int));
                assert(chain_find(cv, name@) == chain_find(cv.subrange(0, fi as int), name@));
            }
        }
        proof {
            assert(cv.subrange(0, 0) =~= Seq::<FrameView>::empty());
        }
        None
    }
}

/// Law: a binding made inside a block scope never alters an outer binding.
/// After the block's frame is popped, every name resolves to exactly what
/// it resolved to before the block was entered, whatever bindings the block
/// made in its own frame.
pub proof fn lemma_block_scope_shadowing(chain: Seq<FrameView>, inner: FrameView, name: Seq<u8>)
    ensures
        chain_find(chain.push(inner).drop_last(), name) == chain_find(chain, name),
{
    assert(chain.push(inner).drop_last() =~= chain);
}

/// Law: while a block is open, a name bound in the block's own frame
/// resolves to the block's value — the innermost binding wins.
pub proof fn lemma_inner_binding_wins(
    chain: Seq<FrameView>,
    inner: FrameView,
    name: Seq<u8>,
    v: ValueView,
)
    requires
        frame_find(inner, name) == Option::Some(v),
    ensures
        chain_find(chain.push(inner), name) == Option::Some(v),
{
    assert(chain.push(inner).last() == inner);
}

/// Law: a name the block's frame does not bind resolves through the block
/// to the enclosing chain unchanged.
pub proof fn lemma_unbound_passes_through(chain: Seq<FrameView>, inner: FrameView, name: Seq<u8>)
    requires
        frame_find(inner, name) == Option::None::<ValueView>,
    ensures
        chain_find(chain.push(inner), name) == chain_find(chain, name),
{
    assert(chain.push(inner).last() == inner);
    assert(chain.push(inner).drop_last() =~= chain);
}

} // verus!
