//! The stack of open elements, and the rules by which elements are closed
//! without an end tag of their own.

use vstd::prelude::*;
use crate::element::{ContentMode, ElementClass};
use crate::element::{spec_classify, spec_closed_by, spec_content_mode, spec_is_void_name};
use crate::element::{classify, closed_by};

verus! {

/// An element whose start tag was accepted and which is not closed yet.
#[derive(Debug)]
pub struct OpenElement {
    /// The name, as the layer keeps it.
    pub name: Vec<u8>,
    /// The class of the name.
    pub class: ElementClass,
}

/// An open element as contracts speak of it.
pub struct OpenElementView {
    pub name: Seq<u8>,
    pub class: ElementClass,
}

impl View for OpenElement {
    type V = OpenElementView;

    open spec fn view(&self) -> OpenElementView {
        OpenElementView { name: self.name@, class: self.class }
    }
}

impl OpenElementView {
    /// The entry that a start tag of `name` leaves on the stack.
    pub open spec fn of(name: Seq<u8>) -> OpenElementView {
        OpenElementView { name, class: spec_classify(name) }
    }

    /// Whether the element is void.
    pub open spec fn is_void(self) -> bool {
        self.class == ElementClass::Void
    }

    /// How the content of the element is scanned.
    pub open spec fn content_mode(self) -> ContentMode {
        spec_content_mode(self.class)
    }
}

impl OpenElement {
    /// Whether the element is void. No open element is: a void element
    /// never opens.
    pub fn is_void(&self) -> (r: bool)
        ensures
            r == self@.is_void(),
    {
        match self.class {
            ElementClass::Void => true,
            _ => false,
        }
    }

    /// How the content of the element is scanned.
    pub fn content_mode(&self) -> (mode: ContentMode)
        ensures
            mode == self@.content_mode(),
    {
        crate::element::content_mode(self.class)
    }
}

/// The open elements, outermost first.
#[derive(Debug)]
pub struct TagStack {
    pub entries: Vec<OpenElement>,
}

impl View for TagStack {
    type V = Seq<OpenElementView>;

    open spec fn view(&self) -> Seq<OpenElementView> {
        Seq::new(self.entries@.len(), |i: int| self.entries@[i]@)
    }
}

/// Every entry has the class of its name, and none is void.
pub open spec fn spec_stack_wf(stack: Seq<OpenElementView>) -> bool {
    forall|i: int|
        0 <= i < stack.len() ==> (#[trigger] stack[i]).class == spec_classify(stack[i].name)
            && !stack[i].is_void()
}

/// How many entries, from the top, the start tag of `name` closes: each of
/// them is closed by `name`, and the entry below them, if there is one, is not.
pub open spec fn spec_implied_closes(stack: Seq<OpenElementView>, name: Seq<u8>) -> nat
    decreases stack.len(),
{
    if stack.len() > 0 && spec_closed_by(stack.last().class, name) {
        1 + spec_implied_closes(stack.drop_last(), name)
    } else {
        0
    }
}

/// The stack once the start tag of `name` has closed what it closes.
pub open spec fn spec_about_to_open(stack: Seq<OpenElementView>, name: Seq<u8>) -> Seq<
    OpenElementView,
> {
    stack.take(stack.len() - spec_implied_closes(stack, name))
}

/// The stack once the start tag of `name` is complete.
pub open spec fn spec_accepted(
    stack: Seq<OpenElementView>,
    name: Seq<u8>,
    self_closing: bool,
) -> Seq<OpenElementView> {
    if self_closing || spec_classify(name) == ElementClass::Void {
        stack
    } else {
        stack.push(OpenElementView::of(name))
    }
}

/// The index of the innermost entry of the name, or -1.
pub open spec fn spec_find_open(stack: Seq<OpenElementView>, name: Seq<u8>) -> int
    decreases stack.len(),
{
    if stack.len() == 0 {
        -1
    } else if stack.last().name == name {
        stack.len() - 1
    } else {
        spec_find_open(stack.drop_last(), name)
    }
}

/// The stack once the end tag of `name` was seen: without the innermost
/// entry of that name and all above it, or unchanged where no entry has it.
pub open spec fn spec_end_tag_seen(stack: Seq<OpenElementView>, name: Seq<u8>) -> Seq<
    OpenElementView,
> {
    if spec_find_open(stack, name) >= 0 {
        stack.take(spec_find_open(stack, name))
    } else {
        stack
    }
}

/// The names of the entries, innermost first.
pub open spec fn spec_names_innermost_first(stack: Seq<OpenElementView>) -> Seq<Seq<u8>> {
    Seq::new(stack.len(), |i: int| stack[stack.len() - 1 - i].name)
}

/// `spec_implied_closes` counts the entries at the top that the start tag
/// closes: each of them is closed by it, and the entry below them is not.
pub proof fn lemma_implied_closes(stack: Seq<OpenElementView>, name: Seq<u8>)
    ensures
        spec_implied_closes(stack, name) <= stack.len(),
        forall|i: int|
            stack.len() - spec_implied_closes(stack, name) <= i < stack.len() ==> spec_closed_by(
                (#[trigger] stack[i]).class,
                name,
            ),
        spec_implied_closes(stack, name) < stack.len() ==> !spec_closed_by(
            stack[stack.len() - spec_implied_closes(stack, name) - 1].class,
            name,
        ),
    decreases stack.len(),
{
    if stack.len() > 0 && spec_closed_by(stack.last().class, name) {
        lemma_implied_closes(stack.drop_last(), name);
        assert forall|i: int|
            stack.len() - spec_implied_closes(stack, name) <= i < stack.len() implies spec_closed_by(
            (#[trigger] stack[i]).class,
            name,
        ) by {
            if i < stack.len() - 1 {
                assert(stack.drop_last()[i] == stack[i]);
            }
        }
        if spec_implied_closes(stack, name) < stack.len() {
            let below = stack.len() - spec_implied_closes(stack, name) - 1;
            assert(stack.drop_last()[below] == stack[below]);
        }
    }
}

/// `spec_find_open` is the greatest index of an entry of the name.
pub proof fn lemma_find_open(stack: Seq<OpenElementView>, name: Seq<u8>)
    ensures
        -1 <= spec_find_open(stack, name) < stack.len(),
        spec_find_open(stack, name) >= 0 ==> stack[spec_find_open(stack, name)].name == name,
        forall|i: int|
            spec_find_open(stack, name) < i < stack.len() ==> (#[trigger] stack[i]).name != name,
    decreases stack.len(),
{
    if stack.len() > 0 && stack.last().name != name {
        lemma_find_open(stack.drop_last(), name);
        let found = spec_find_open(stack, name);
        assert forall|i: int| found < i < stack.len() implies (#[trigger] stack[i]).name
            != name by {
            if i < stack.len() - 1 {
                assert(stack.drop_last()[i] == stack[i]);
            }
        }
        if found >= 0 {
            assert(stack.drop_last()[found] == stack[found]);
        }
    }
}

/// Whether two names are the same bytes.
pub fn same_name(a: &[u8], b: &[u8]) -> (r: bool)
    ensures
        r == (a@ == b@),
{
    if a.len() != b.len() {
        return false;
    }
    let mut i: usize = 0;
    while i < a.len()
        invariant
            a@.len() == b@.len(),
            i <= a@.len(),
            forall|j: int| 0 <= j < i ==> a@[j] == b@[j],
        decreases a@.len() - i,
    {
        if a[i] != b[i] {
            return false;
        }
        i += 1;
    }
    assert(a@ =~= b@);
    true
}

impl TagStack {
    /// Every entry has the class of its name, and none is void.
    pub open spec fn wf(&self) -> bool {
        spec_stack_wf(self@)
    }

    /// A stack with nothing open.
    pub fn new() -> (stack: TagStack)
        ensures
            stack@ == Seq::<OpenElementView>::empty(),
            stack.wf(),
    {
        let stack = TagStack { entries: Vec::new() };
        assert(stack@ =~= Seq::<OpenElementView>::empty());
        stack
    }

    /// The number of open elements.
    pub fn depth(&self) -> (n: usize)
        ensures
            n == self@.len(),
    {
        self.entries.len()
    }

    /// The class of the innermost open element.
    pub fn top_class(&self) -> (class: Option<ElementClass>)
        ensures
            class == if self@.len() > 0 {
                Some(self@.last().class)
            } else {
                None
            },
    {
        let n = self.entries.len();
        if n > 0 {
            Some(self.entries[n - 1].class)
        } else {
            None
        }
    }

    /// Pops the innermost open element.
    pub fn pop(&mut self)
        requires
            old(self)@.len() > 0,
        ensures
            final(self)@ == old(self)@.drop_last(),
            old(self).wf() ==> final(self).wf(),
    {
        let _ = self.entries.pop();
        assert(self@ =~= old(self)@.drop_last());
    }

    /// Consulted before a start tag of `name` opens: closes, from the top,
    /// every entry that this start tag closes, and returns how many.
    pub fn on_start_tag_about_to_open(&mut self, name: &[u8]) -> (closed: usize)
        ensures
            closed == spec_implied_closes(old(self)@, name@),
            final(self)@ == spec_about_to_open(old(self)@, name@),
            final(self)@ == old(self)@.take(old(self)@.len() - closed),
            old(self).wf() ==> final(self).wf(),
    {
        let mut closed: usize = 0;
        let depth: usize = self.entries.len();
        assert(self@ =~= old(self)@.take(self@.len() as int));
        loop
            invariant
                old(self)@.len() == depth,
                closed + self@.len() == old(self)@.len(),
                self@ == old(self)@.take(self@.len() as int),
                spec_implied_closes(old(self)@, name@) == closed + spec_implied_closes(
                    self@,
                    name@,
                ),
            ensures
                closed == spec_implied_closes(old(self)@, name@),
                self@ == old(self)@.take(old(self)@.len() - closed),
            decreases self@.len(),
        {
            let n = self.entries.len();
            if n == 0 {
                break ;
            }
            if !closed_by(self.entries[n - 1].class, name) {
                break ;
            }
            self.pop();
            assert(self@ =~= old(self)@.take(self@.len() as int));
            closed += 1;
        }
        closed
    }

    /// Called when the start tag of `name` is complete: the element is
    /// pushed unless its name is void or the tag closes itself.
    pub fn on_start_tag_accepted(&mut self, name: &[u8], self_closing: bool) -> (pushed: bool)
        ensures
            pushed == (!self_closing && !spec_is_void_name(name@)),
            final(self)@ == spec_accepted(old(self)@, name@, self_closing),
            pushed ==> final(self)@ == old(self)@.push(OpenElementView::of(name@)),
            !pushed ==> final(self)@ == old(self)@,
            old(self).wf() ==> final(self).wf(),
    {
        let class = classify(name);
        if self_closing {
            return false;
        }
        match class {
            ElementClass::Void => false,
            _ => {
                let owned = vstd::slice::slice_to_vec(name);
                self.entries.push(OpenElement { name: owned, class });
                assert(self@ =~= old(self)@.push(OpenElementView::of(name@)));
                true
            },
        }
    }

    /// Called when the end tag of `name` is seen. Where an entry has the
    /// name, the innermost such entry and every entry above it are popped,
    /// and the result is the number of entries above it, which are closed
    /// without an end tag of their own. Where none has it, nothing changes.
    pub fn on_end_tag_seen(&mut self, name: &[u8]) -> (closed: Option<usize>)
        ensures
            closed is Some <==> spec_find_open(old(self)@, name@) >= 0,
            closed matches Some(n) ==> n == old(self)@.len() - 1 - spec_find_open(
                old(self)@,
                name@,
            ),
            final(self)@ == spec_end_tag_seen(old(self)@, name@),
            old(self).wf() ==> final(self).wf(),
    {
        let mut i: usize = self.entries.len();
        assert(self@.take(i as int) =~= self@);
        while i > 0
            invariant
                i <= self.entries@.len(),
                self@ == old(self)@,
                self.entries@.len() == self@.len(),
                spec_find_open(self@, name@) == spec_find_open(self@.take(i as int), name@),
            decreases i,
        {
            assert(self@.take(i as int).last() == self.entries@[i - 1]@);
            assert(self@.take(i as int).drop_last() =~= self@.take(i - 1));
            if same_name(self.entries[i - 1].name.as_slice(), name) {
                let closed: usize = self.entries.len() - i;
                self.entries.truncate(i - 1);
                assert(self@ =~= old(self)@.take(i - 1));
                return Some(closed);
            }
            i -= 1;
        }
        None
    }

    /// At the end of the input: pops every entry, and returns their names,
    /// innermost first.
    pub fn close_all(&mut self) -> (names: Vec<Vec<u8>>)
        ensures
            final(self)@.len() == 0,
            names@.len() == old(self)@.len(),
            forall|i: int|
                0 <= i < names@.len() ==> (#[trigger] names@[i])@ == old(self)@[old(self)@.len()
                    - 1 - i].name,
    {
        let mut names: Vec<Vec<u8>> = Vec::new();
        while self.entries.len() > 0
            invariant
                names@.len() + self.entries@.len() == old(self)@.len(),
                self.entries@ == old(self).entries@.take(self.entries@.len() as int),
                old(self)@.len() == old(self).entries@.len(),
                forall|i: int|
                    0 <= i < names@.len() ==> (#[trigger] names@[i])@ == old(self)@[old(
                        self,
                    )@.len() - 1 - i].name,
            decreases self.entries@.len(),
        {
            let ghost n = self.entries@.len();
            let top = self.entries.pop();
            match top {
                Some(entry) => {
                    assert(entry == old(self).entries@[n - 1]);
                    names.push(entry.name);
                },
                None => {},
            }
            assert(self.entries@ =~= old(self).entries@.take(self.entries@.len() as int));
        }
        names
    }

    /// A copy of the stack.
    pub fn snapshot(&self) -> (copy: TagStack)
        ensures
            copy@ == self@,
    {
        let mut entries: Vec<OpenElement> = Vec::new();
        let mut i: usize = 0;
        while i < self.entries.len()
            invariant
                i <= self.entries@.len(),
                entries@.len() == i,
                forall|j: int| 0 <= j < i ==> (#[trigger] entries@[j])@ == self.entries@[j]@,
            decreases self.entries@.len() - i,
        {
            let name = vstd::slice::slice_to_vec(self.entries[i].name.as_slice());
            entries.push(OpenElement { name, class: self.entries[i].class });
            i += 1;
        }
        let copy = TagStack { entries };
        assert(copy@ =~= self@);
        copy
    }
}

} // verus!
