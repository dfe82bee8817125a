use vstd::prelude::*;

verus! {

/// The line ending for a count of line-ending bytes: one byte is `\n`, anything else `\r\n`.
pub fn resolve_line_endings<'a>(len: usize) -> (r: &'a str)
    ensures
        len == 1 ==> r@ == seq!['\n'],
        len != 1 ==> r@ == seq!['\r', '\n'],
{
    proof {
        reveal_strlit("\n");
        reveal_strlit("\r\n");
    }
    match len {
        1 => "\n",
        _ => "\r\n",
    }
}

pub trait MoveVector<T> {
    fn clone_and_empty(&mut self) -> Vec<T>;
}

impl<T> MoveVector<T> for Vec<T> {
    /// Hands out the current elements and leaves the vector empty.
    fn clone_and_empty(&mut self) -> (r: Vec<T>)
        ensures
            r@ == old(self)@,
            final(self)@ == Seq::<T>::empty(),
    {
        let mut taken: Vec<T> = Vec::new();
        std::mem::swap(&mut taken, self);
        taken
    }
}

pub trait ExtendedOption<T> {
    fn is(&self, character: T) -> bool;
}

impl ExtendedOption<char> for Option<char> {
    /// Whether the option holds exactly the given character.
    fn is(&self, character: char) -> (r: bool)
        ensures
            r == (*self == Some(character)),
    {
        match self {
            Some(c) => *c == character,
            None => false,
        }
    }
}

/// A stack of vectors; popping an empty stack gives an empty vector.
pub struct VecStack<T> {
    pub data: Vec<Vec<T>>,
}

impl<T> VecStack<T> {
    pub open spec fn view_stack(&self) -> Seq<Seq<T>> {
        self.data@.map_values(|v: Vec<T>| v@)
    }

    pub fn new() -> (r: Self)
        ensures
            r.data@.len() == 0,
    {
        VecStack { data: Vec::new() }
    }

    pub fn push_vec(&mut self, data: Vec<T>)
        ensures
            final(self).data@ == old(self).data@.push(data),
    {
        self.data.push(data);
    }

    pub fn pop_vec(&mut self) -> (r: Vec<T>)
        ensures
            old(self).data@.len() == 0 ==> r@ == Seq::<T>::empty() && final(self).data@ == old(self).data@,
            old(self).data@.len() > 0 ==> r == old(self).data@.last()
                && final(self).data@ == old(self).data@.drop_last(),
    {
        match self.data.pop() {
            Some(v) => v,
            None => Vec::new(),
        }
    }
}

/// Popping right after pushing gives back the pushed vector and the stack as it was.
pub proof fn law_push_then_pop<T>(before: Seq<Vec<T>>, pushed: Vec<T>)
    ensures
        before.push(pushed).len() > 0,
        before.push(pushed).last() == pushed,
        before.push(pushed).drop_last() == before,
{
    assert(before.push(pushed).drop_last() =~= before);
}

} // verus!
