use vstd::prelude::*;
use crate::codec::Codec;
use crate::encoding::{Encoder, ErrorPolicy, Item, Pull};

verus! {

/// What one step of a pipeline gives.
pub enum Step {
    /// The next item of the pipeline's output.
    Ready(Item),
    /// The pipeline's output is at an end.
    End,
    /// The lowest stage needs more input from outside.
    NeedInput,
    /// An item, or the end of a stage's output, was handed from one stage
    /// to the next; step again.
    Moved,
}

/// Stages chained so that each reads what the one below it hands out; the
/// lowest stage is fed from outside, piece by piece, and then closed.
pub struct Pipeline {
    top: Encoder,
    below: Option<Box<Pipeline>>,
}

impl Pipeline {
    /// The outermost stage, whose output is the pipeline's.
    pub closed spec fn top(&self) -> Encoder {
        self.top
    }

    /// How many stages there are.
    pub closed spec fn depth(&self) -> nat
        decreases self,
    {
        match self.below {
            None => 1,
            Some(b) => 1 + b.depth(),
        }
    }

    /// Each stage is well formed, and each has received exactly what the
    /// stage below it has handed out.
    pub closed spec fn wf(&self) -> bool
        decreases self,
    {
        &&& self.top.wf()
        &&& match self.below {
            None => true,
            Some(b) => b.wf() && self.top.received() == b.top.delivered(),
        }
    }

    /// The lowest stage still takes input.
    pub closed spec fn source_open(&self) -> bool
        decreases self,
    {
        match self.below {
            None => !self.top.is_closed(),
            Some(b) => b.source_open(),
        }
    }

    /// A pipeline of one stage running `encoding`, to be fed from outside.
    pub fn source(encoding: Codec, enc_name: &str, error_policy: ErrorPolicy) -> (r: Pipeline)
        requires
            encoding.wf(),
            encoding.pending() <= 1,
        ensures
            r.wf(),
            r.source_open(),
            r.top().delivered() == Seq::<Item>::empty(),
    {
        Pipeline { top: Encoder::open(encoding, enc_name, error_policy), below: None }
    }

    /// `below` with a new outermost stage running `encoding` on its output.
    pub fn stack(below: Pipeline, encoding: Codec, enc_name: &str, error_policy: ErrorPolicy) -> (r: Pipeline)
        requires
            below.wf(),
            below.top().delivered() == Seq::<Item>::empty(),
            encoding.wf(),
            encoding.pending() <= 1,
        ensures
            r.wf(),
            r.source_open() == below.source_open(),
            r.top().delivered() == Seq::<Item>::empty(),
    {
        Pipeline { top: Encoder::open(encoding, enc_name, error_policy), below: Some(Box::new(below)) }
    }

    /// Feeds `items` to the lowest stage.
    pub fn feed(&mut self, items: Vec<Item>)
        requires
            old(self).wf(),
            old(self).source_open(),
        ensures
            final(self).wf(),
            final(self).source_open(),
            final(self).top().delivered() == old(self).top().delivered(),
        decreases old(self).depth(),
    {
        let below = self.below.take();
        match below {
            None => {
                self.top.feed(items);
            },
            Some(bx) => {
                let mut b = *bx;
                b.feed(items);
                self.below = Some(Box::new(b));
            },
        }
    }

    /// Tells the lowest stage that no more input will come.
    pub fn end_input(&mut self)
        requires
            old(self).wf(),
        ensures
            final(self).wf(),
            !final(self).source_open(),
            final(self).top().delivered() == old(self).top().delivered(),
        decreases old(self).depth(),
    {
        let below = self.below.take();
        match below {
            None => {
                self.top.end_input();
            },
            Some(bx) => {
                let mut b = *bx;
                b.end_input();
                self.below = Some(Box::new(b));
            },
        }
    }

    /// One step: the outermost stage is pulled; when it needs input, the
    /// stage below takes a step, and an item it hands out is fed to the
    /// outermost stage, or its end closes that stage's input.
    pub fn step(&mut self) -> (r: Step)
        requires
            old(self).wf(),
        ensures
            final(self).wf(),
            final(self).source_open() == old(self).source_open(),
            r matches Step::Ready(x) ==> final(self).top().delivered() == old(self).top().delivered().push(x),
            !(r is Ready) ==> final(self).top().delivered() == old(self).top().delivered(),
            r is NeedInput ==> old(self).source_open(),
        decreases old(self).depth(),
    {
        match self.top.pull() {
            Pull::Ready(x) => Step::Ready(x),
            Pull::End => Step::End,
            Pull::NeedInput => {
                let below = self.below.take();
                match below {
                    None => Step::NeedInput,
                    Some(bx) => {
                        let mut b = *bx;
                        let r = match b.step() {
                            Step::Ready(x) => {
                                let ghost before = self.top.received();
                                let ghost xv = x;
                                let items = vec![x];
                                assert(items@ =~= seq![xv]);
                                self.top.feed(items);
                                assert(before + seq![xv] =~= before.push(xv));
                                Step::Moved
                            },
                            Step::End => {
                                self.top.end_input();
                                Step::Moved
                            },
                            Step::NeedInput => Step::NeedInput,
                            Step::Moved => Step::Moved,
                        };
                        self.below = Some(Box::new(b));
                        r
                    },
                }
            },
        }
    }
}

} // verus!
