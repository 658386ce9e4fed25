//! Conversation context: a bounded ordered history of (input, response)
//! pairs, and the window of recent pairs handed to the backend as memory.

use vstd::prelude::*;

verus! {

/// Most pairs the history retains; appending to a full history evicts the
/// oldest pair first.
pub const HISTORY_CAP: usize = 50;

/// Most recent pairs included in a backend prompt. Independent of
/// `HISTORY_CAP`, which only caps memory.
pub const PROMPT_PAIRS: usize = 5;

/// Bounded ordered history of (input, response) pairs, oldest first.
pub struct ContextWindow {
    pairs: Vec<(String, String)>,
}

/// What one `append` does to a history: the new pair goes at the end, and a
/// history already at the cap loses its oldest pair.
pub open spec fn spec_append(
    h: Seq<(String, String)>,
    input: String,
    response: String,
) -> Seq<(String, String)> {
    if h.len() < HISTORY_CAP {
        h.push((input, response))
    } else {
        h.push((input, response)).drop_first()
    }
}

/// The start of the prompt window: everything from here on is handed to the
/// backend, at most `PROMPT_PAIRS` pairs.
pub open spec fn spec_prompt_start(len: nat) -> int {
    if len <= PROMPT_PAIRS {
        0
    } else {
        len - PROMPT_PAIRS
    }
}

impl View for ContextWindow {
    type V = Seq<(String, String)>;

    closed spec fn view(&self) -> Seq<(String, String)> {
        self.pairs@
    }
}

impl ContextWindow {
    pub open spec fn wf(&self) -> bool {
        self@.len() <= HISTORY_CAP
    }

    pub fn new() -> (w: ContextWindow)
        ensures
            w@ == Seq::<(String, String)>::empty(),
            w.wf(),
    {
        ContextWindow { pairs: Vec::new() }
    }

    pub fn len(&self) -> (n: usize)
        ensures
            n == self@.len(),
    {
        self.pairs.len()
    }

    /// Add one pair, evicting the oldest if the history is full.
    pub fn append(&mut self, input: String, response: String)
        requires
            old(self).wf(),
        ensures
            final(self)@ == spec_append(old(self)@, input, response),
            final(self).wf(),
    {
        self.pairs.push((input, response));
        if self.pairs.len() > HISTORY_CAP {
            self.pairs.remove(0);
            proof {
                assert(self.pairs@ =~= spec_append(old(self)@, input, response));
            }
        }
    }

    /// Empty the history immediately.
    pub fn clear(&mut self)
        ensures
            final(self)@ == Seq::<(String, String)>::empty(),
            final(self).wf(),
    {
        self.pairs.clear();
    }

    /// The most recent `PROMPT_PAIRS` pairs (or all, if fewer), oldest first.
    pub fn build_prompt_context(&self) -> (ctx: Vec<(String, String)>)
        ensures
            ctx@ == self@.skip(spec_prompt_start(self@.len())),
    {
        let len = self.pairs.len();
        let start: usize = if len <= PROMPT_PAIRS {
            0
        } else {
            len - PROMPT_PAIRS
        };
        let mut ctx: Vec<(String, String)> = Vec::new();
        let mut i = start;
        while i < len
            invariant
                start <= i <= len,
                len == self@.len(),
                start == spec_prompt_start(self@.len()),
                ctx@ == self@.subrange(start as int, i as int),
            decreases len - i,
        {
            let pair = (self.pairs[i].0.clone(), self.pairs[i].1.clone());
            ctx.push(pair);
            proof {
                assert(ctx@ =~= self@.subrange(start as int, i + 1 as int));
            }
            i = i + 1;
        }
        proof {
            assert(ctx@ =~= self@.skip(spec_prompt_start(self@.len())));
        }
        ctx
    }
}

/// However long the history was (within its cap), one more `append` keeps it
/// within the cap, and a full history drops exactly its oldest pair: the rest
/// shift down and the new pair takes the last place.
pub proof fn lemma_append_bounded(h: Seq<(String, String)>, input: String, response: String)
    requires
        h.len() <= HISTORY_CAP,
    ensures
        spec_append(h, input, response).len() <= HISTORY_CAP,
        h.len() < HISTORY_CAP ==> spec_append(h, input, response) == h.push((input, response)),
        h.len() == HISTORY_CAP ==> spec_append(h, input, response) == h.skip(1).push(
            (input, response),
        ),
{
    if h.len() == HISTORY_CAP {
        assert(spec_append(h, input, response) =~= h.skip(1).push((input, response)));
    }
}

} // verus!
