use vstd::prelude::*;
use vstd::string::*;

use crate::chunks::value::Value;
use crate::text::{decimal, push_decimal};

verus! {

/// The number of values that the operand stack can hold.
pub const STACK_SIZE: usize = 4096;

/// The operand stack of the machine: a last-in, first-out store of values
/// with a fixed capacity.
pub struct Stack {
    items: Vec<Value>,
}

/// The message with which a push onto a full stack is refused.
pub open spec fn overflow_text() -> Seq<char> {
    "Stack overflow: maximum stack size of "@ + decimal(STACK_SIZE as nat) + " reached"@
}

impl View for Stack {
    type V = Seq<Value>;

    /// The values on the stack, the oldest first.
    closed spec fn view(&self) -> Seq<Value> {
        self.items@
    }
}

impl Stack {
    /// The stack holds no more values than its capacity.
    pub open spec fn wf(&self) -> bool {
        self@.len() <= STACK_SIZE
    }

    /// An empty stack.
    pub fn new() -> (r: Self)
        ensures
            r.wf(),
            r@ == Seq::<Value>::empty(),
    {
        Self { items: Vec::with_capacity(STACK_SIZE) }
    }

    /// The number of values on the stack.
    pub fn len(&self) -> (n: usize)
        ensures
            n == self@.len(),
    {
        self.items.len()
    }

    /// Puts a value on top of a stack that is not full.
    pub fn push(&mut self, v: Value)
        requires
            old(self)@.len() < STACK_SIZE,
        ensures
            final(self)@ == old(self)@.push(v),
            final(self).wf(),
    {
        self.items.push(v);
    }

    /// Puts a value on top of the stack, or refuses with the overflow
    /// message where the stack is full.
    pub fn try_push(&mut self, v: Value) -> (r: Result<(), String>)
        requires
            old(self).wf(),
        ensures
            final(self).wf(),
            old(self)@.len() < STACK_SIZE ==> r is Ok && final(self)@ == old(self)@.push(v),
            old(self)@.len() >= STACK_SIZE ==> final(self)@ == old(self)@ && (r matches Err(msg)
                && msg@ == overflow_text()),
    {
        if self.items.len() < STACK_SIZE {
            self.items.push(v);
            Ok(())
        } else {
            Err(Stack::overflow_message())
        }
    }

    /// The message with which a push onto a full stack is refused.
    pub fn overflow_message() -> (r: String)
        ensures
            r@ == overflow_text(),
    {
        let mut s = String::from_str("Stack overflow: maximum stack size of ");
        push_decimal(&mut s, STACK_SIZE as u64);
        s.append(" reached");
        s
    }

    /// Takes the value on top off the stack; nothing where the stack is
    /// empty.
    pub fn pop(&mut self) -> (r: Option<Value>)
        ensures
            old(self)@.len() == 0 ==> r is None && final(self)@ == old(self)@,
            old(self)@.len() > 0 ==> r == Some(old(self)@.last()) && final(self)@ == old(
                self,
            )@.drop_last(),
            old(self).wf() ==> final(self).wf(),
    {
        self.items.pop()
    }

    /// The value on top of the stack; nothing where the stack is empty.
    pub fn peek(&self) -> (r: Option<&Value>)
        ensures
            self@.len() == 0 ==> r is None,
            self@.len() > 0 ==> r == Some(&self@.last()),
    {
        if self.items.len() == 0 {
            None
        } else {
            Some(&self.items[self.items.len() - 1])
        }
    }

    /// Empties the stack.
    pub fn reset(&mut self)
        ensures
            final(self)@ == Seq::<Value>::empty(),
            final(self).wf(),
    {
        self.items.clear();
    }

    /// The values on the stack, in the order in which they were pushed.
    pub fn trace(&self) -> (r: Vec<Value>)
        ensures
            r@ == self@,
    {
        let mut out: Vec<Value> = Vec::new();
        let mut i: usize = 0;
        while i < self.items.len()
            invariant
                0 <= i <= self.items.len(),
                out@ == self.items@.take(i as int),
            decreases self.items.len() - i,
        {
            out.push(self.items[i]);
            assert(self.items@.take(i + 1) =~= self.items@.take(i as int).push(
                self.items@[i as int],
            ));
            i = i + 1;
        }
        assert(self.items@.take(i as int) =~= self.items@);
        out
    }
}

} // verus!
