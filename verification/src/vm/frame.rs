//! Call frames.

use crate::object::{objects_view, Closure, FunctionView, Value};
use vstd::prelude::*;

verus! {

/// One call in progress: the closure that runs, the offset of its next
/// instruction, and where its locals start on the stack.
#[derive(Debug, PartialEq)]
pub struct Frame {
    pub cl: Closure,
    pub ip: usize,
    pub base_pointer: usize,
}

/// A frame as a mathematical value.
pub struct FrameView {
    pub func: FunctionView,
    pub free: Seq<Value>,
    pub ip: int,
    pub base_pointer: int,
}

impl View for Frame {
    type V = FrameView;

    open spec fn view(&self) -> FrameView {
        FrameView {
            func: self.cl.func@,
            free: objects_view(self.cl.free@),
            ip: self.ip as int,
            base_pointer: self.base_pointer as int,
        }
    }
}

/// The views of a stack of frames.
pub open spec fn frames_view(frames: Seq<Frame>) -> Seq<FrameView> {
    Seq::new(frames.len(), |i: int| frames[i]@)
}

impl Frame {
    /// A frame that is about to run the closure's first instruction.
    pub fn new(cl: Closure, base_pointer: usize) -> (frame: Frame)
        ensures
            frame@ == (FrameView {
                func: cl.func@,
                free: objects_view(cl.free@),
                ip: 0,
                base_pointer: base_pointer as int,
            }),
    {
        Frame { cl, ip: 0, base_pointer }
    }

    /// The instructions that the frame runs.
    pub fn instructions(&self) -> (code: &Vec<u8>)
        ensures
            code@ == self@.func.instructions,
    {
        &self.cl.func.instructions
    }
}

impl Clone for Frame {
    fn clone(&self) -> (r: Frame)
        ensures
            r@ == self@,
    {
        Frame { cl: self.cl.clone(), ip: self.ip, base_pointer: self.base_pointer }
    }
}

} // verus!
