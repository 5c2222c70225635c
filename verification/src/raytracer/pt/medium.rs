//! Nested-media bookkeeping: a small stack of medium indices; the top is the medium the
//! ray currently travels in, the atmosphere is the implicit bottom. Entering a hull or a
//! glass interior pushes, exiting pops, so a glass ball inside a cloud returns rays to
//! the cloud, not to clear air.

use vstd::prelude::*;

verus! {

/// How many media can be nested.
pub const MAX_NESTED: usize = 8;

/// The media that a ray is in.
#[derive(Clone, Copy, Debug)]
pub struct MediumStack {
    stack: [u32; 8],
    depth: usize,
    atmosphere: Option<u32>,
}

/// What a stack is: the media from the outermost to the innermost, and the atmosphere
/// around them.
pub struct MediumView {
    pub media: Seq<u32>,
    pub atmosphere: Option<u32>,
}

impl View for MediumStack {
    type V = MediumView;

    closed spec fn view(&self) -> MediumView {
        MediumView { media: self.stack@.take(self.depth as int), atmosphere: self.atmosphere }
    }
}

/// The medium that a ray travels in.
pub open spec fn current_medium(s: MediumView) -> Option<u32> {
    if s.media.len() > 0 {
        Some(s.media.last())
    } else {
        s.atmosphere
    }
}

/// The stack after a medium is entered; a full stack stays what it is.
pub open spec fn entered(s: MediumView, medium: u32) -> MediumView {
    if s.media.len() < MAX_NESTED {
        MediumView { media: s.media.push(medium), atmosphere: s.atmosphere }
    } else {
        s
    }
}

/// The stack after a medium is left; an empty stack stays what it is.
pub open spec fn left(s: MediumView) -> MediumView {
    if s.media.len() > 0 {
        MediumView { media: s.media.drop_last(), atmosphere: s.atmosphere }
    } else {
        s
    }
}

impl MediumStack {
    #[verifier::type_invariant]
    spec fn is_bounded(self) -> bool {
        self.depth <= MAX_NESTED
    }

    pub fn new(atmosphere: Option<u32>) -> (r: MediumStack)
        ensures
            r@.media == Seq::<u32>::empty(),
            r@.atmosphere == atmosphere,
    {
        let r: MediumStack = MediumStack { stack: [0; 8], depth: 0, atmosphere };
        assert(r@.media =~= seq![]);
        r
    }

    /// The medium that a ray travels in.
    pub fn current(&self) -> (r: Option<u32>)
        ensures
            r == current_medium(self@),
    {
        proof {
            use_type_invariant(self);
        }
        if self.depth > 0 {
            Some(self.stack[self.depth - 1])
        } else {
            self.atmosphere
        }
    }

    /// Enter a medium.
    pub fn push(&mut self, medium: u32)
        ensures
            final(self)@ == entered(old(self)@, medium),
    {
        proof {
            use_type_invariant(&*self);
        }
        if self.depth < MAX_NESTED {
            let mut stack: [u32; 8] = self.stack;
            let depth: usize = self.depth;
            stack[depth] = medium;
            let next: MediumStack = MediumStack {
                stack,
                depth: depth + 1,
                atmosphere: self.atmosphere,
            };
            assert(next@.media =~= old(self)@.media.push(medium));
            *self = next;
        }
    }

    /// Leave a medium.
    pub fn pop(&mut self)
        ensures
            final(self)@ == left(old(self)@),
    {
        proof {
            use_type_invariant(&*self);
        }
        if self.depth > 0 {
            let next: MediumStack = MediumStack {
                stack: self.stack,
                depth: self.depth - 1,
                atmosphere: self.atmosphere,
            };
            assert(next@.media =~= old(self)@.media.drop_last());
            *self = next;
        }
    }
}

/// Leaving what was entered returns a ray to the medium that it was in.
pub proof fn leaving_returns(s: MediumView, medium: u32)
    requires
        s.media.len() < MAX_NESTED,
    ensures
        current_medium(entered(s, medium)) == Some(medium),
        left(entered(s, medium)) == s,
{
    assert(s.media.push(medium).drop_last() =~= s.media);
}

} // verus!
