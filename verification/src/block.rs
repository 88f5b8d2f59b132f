//! The stack of open blocks, against which branches and block ends are
//! checked.

use vstd::prelude::*;
use crate::token::{BlockKind, BranchKind};

verus! {

/// The kinds of the open blocks, outermost first.
#[derive(Debug)]
pub struct BlockStack {
    pub kinds: Vec<BlockKind>,
}

impl View for BlockStack {
    type V = Seq<BlockKind>;

    open spec fn view(&self) -> Seq<BlockKind> {
        self.kinds@
    }
}

/// Whether a branch of kind `branch` belongs to a block of kind `block`:
/// `else if` to `if`, `else` to `if` and `each`, and the other two to `await`.
pub open spec fn spec_branch_of(branch: BranchKind, block: BlockKind) -> bool {
    match branch {
        BranchKind::ElseIf => block == BlockKind::If,
        BranchKind::Else => block == BlockKind::If || block == BlockKind::Each,
        BranchKind::Then => block == BlockKind::Await,
        BranchKind::Catch => block == BlockKind::Await,
    }
}

/// Whether a branch of kind `branch` is in its place: the innermost open
/// block is one that it belongs to.
pub open spec fn spec_branch_fits(stack: Seq<BlockKind>, branch: BranchKind) -> bool {
    stack.len() > 0 && spec_branch_of(branch, stack.last())
}

/// Whether the end of a block of kind `kind` is in its place: the innermost
/// open block is of that kind.
pub open spec fn spec_end_fits(stack: Seq<BlockKind>, kind: BlockKind) -> bool {
    stack.len() > 0 && stack.last() == kind
}

/// The stack after the end of a block of kind `kind`: without its last
/// entry where the end is in its place, unchanged where it is not.
pub open spec fn spec_after_end(stack: Seq<BlockKind>, kind: BlockKind) -> Seq<BlockKind> {
    if spec_end_fits(stack, kind) {
        stack.drop_last()
    } else {
        stack
    }
}

/// Whether a branch of kind `branch` belongs to a block of kind `block`.
pub fn branch_of(branch: BranchKind, block: BlockKind) -> (r: bool)
    ensures
        r == spec_branch_of(branch, block),
{
    match branch {
        BranchKind::ElseIf => block == BlockKind::If,
        BranchKind::Else => block == BlockKind::If || block == BlockKind::Each,
        BranchKind::Then => block == BlockKind::Await,
        BranchKind::Catch => block == BlockKind::Await,
    }
}

impl BlockStack {
    /// A stack with nothing open.
    pub fn new() -> (stack: BlockStack)
        ensures
            stack@ == Seq::<BlockKind>::empty(),
    {
        BlockStack { kinds: Vec::new() }
    }

    /// The number of open blocks.
    pub fn depth(&self) -> (n: usize)
        ensures
            n == self@.len(),
    {
        self.kinds.len()
    }

    /// The kind of the innermost open block.
    pub fn top(&self) -> (kind: Option<BlockKind>)
        ensures
            kind == if self@.len() > 0 {
                Some(self@.last())
            } else {
                None
            },
    {
        let n = self.kinds.len();
        if n > 0 {
            Some(self.kinds[n - 1])
        } else {
            None
        }
    }

    /// A block of kind `kind` starts.
    pub fn on_block_start(&mut self, kind: BlockKind)
        ensures
            final(self)@ == old(self)@.push(kind),
    {
        self.kinds.push(kind);
    }

    /// A branch of kind `branch` is seen. The stack never changes; the
    /// result says whether the branch is in its place.
    pub fn on_branch(&self, branch: BranchKind) -> (fits: bool)
        ensures
            fits == spec_branch_fits(self@, branch),
    {
        match self.top() {
            Some(block) => branch_of(branch, block),
            None => false,
        }
    }

    /// The end of a block of kind `kind` is seen. Where the innermost open
    /// block is of that kind it is popped; where it is not, nothing changes.
    pub fn on_block_end(&mut self, kind: BlockKind) -> (fits: bool)
        ensures
            fits == spec_end_fits(old(self)@, kind),
            final(self)@ == spec_after_end(old(self)@, kind),
    {
        match self.top() {
            Some(block) => {
                if block == kind {
                    let _ = self.kinds.pop();
                    true
                } else {
                    false
                }
            },
            None => false,
        }
    }

    /// At the end of the input: pops every block, and returns their kinds,
    /// innermost first.
    pub fn close_all(&mut self) -> (kinds: Vec<BlockKind>)
        ensures
            final(self)@.len() == 0,
            kinds@ == old(self)@.reverse(),
    {
        let mut kinds: Vec<BlockKind> = Vec::new();
        while self.kinds.len() > 0
            invariant
                kinds@.len() + self.kinds@.len() == old(self)@.len(),
                self.kinds@ == old(self)@.take(self.kinds@.len() as int),
                forall|i: int|
                    0 <= i < kinds@.len() ==> kinds@[i] == old(self)@[old(self)@.len() - 1 - i],
            decreases self.kinds@.len(),
        {
            let ghost n = self.kinds@.len();
            match self.kinds.pop() {
                Some(kind) => {
                    assert(kind == old(self)@[n - 1]);
                    kinds.push(kind);
                },
                None => {},
            }
            assert(self.kinds@ =~= old(self)@.take(self.kinds@.len() as int));
        }
        assert(kinds@ =~= old(self)@.reverse());
        kinds
    }

    /// A copy of the stack.
    pub fn snapshot(&self) -> (copy: BlockStack)
        ensures
            copy@ == self@,
    {
        let mut kinds: Vec<BlockKind> = Vec::new();
        let mut i: usize = 0;
        while i < self.kinds.len()
            invariant
                i <= self.kinds@.len(),
                kinds@ == self.kinds@.take(i as int),
            decreases self.kinds@.len() - i,
        {
            kinds.push(self.kinds[i]);
            assert(self.kinds@.take(i + 1) =~= self.kinds@.take(i as int).push(self.kinds@[i as int]));
            i += 1;
        }
        assert(self.kinds@.take(i as int) =~= self.kinds@);
        BlockStack { kinds }
    }
}

} // verus!
