use vstd::prelude::*;

verus! {

/// A handler of the preferences menu's opcodes. The status service asks its
/// handlers in turn until one has handled an opcode.
pub trait PrefHandler {
    /// Handles an opcode; returns whether this handler took it.
    fn handle(&mut self, op: usize) -> bool;

    /// Claims the handler's entries of the preferences menu; the entries send
    /// their opcodes to the connection `cid`.
    fn claim_menumatic_menu(&mut self, cid: u32);
}

} // verus!
