//! The inbox of picked files: files that were read in the background wait here
//! until the next frame takes them.
use vstd::prelude::*;

verus! {

/// What a picked file is used for.
#[derive(Debug)]
pub enum FileEvent {
    Project(Vec<u8>),
    Midi(Vec<u8>),
    Sample(Vec<u8>),
}

/// Drain pending file events (call once per frame).
pub fn drain(inbox: &mut Vec<FileEvent>) -> (r: Vec<FileEvent>)
    ensures
        r@ == old(inbox)@,
        final(inbox)@ == Seq::<FileEvent>::empty(),
{
    let mut taken: Vec<FileEvent> = Vec::new();
    std::mem::swap(&mut taken, inbox);
    taken
}

} // verus!
