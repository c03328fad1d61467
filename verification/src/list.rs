//! A singly linked list with push, pop and indexed access at both ends.

use vstd::prelude::*;

verus! {

/// One link of the chain.
struct Node<T> {
    value: T,
    next: Option<Box<Node<T>>>,
}

/// The values hanging off `o`, front first.
spec fn opt_seq<T>(o: Option<Box<Node<T>>>) -> Seq<T>
    decreases o,
{
    match o {
        Option::None => Seq::empty(),
        Option::Some(n) => seq![n.value] + opt_seq(n.next),
    }
}

impl<T> Node<T> {
    /// A final link holding `value`.
    fn new(value: T) -> (r: Self)
        ensures
            opt_seq(Some(Box::new(r))) =~= seq![value],
    {
        proof {
            assert(opt_seq(Option::<Box<Node<T>>>::None) =~= Seq::<T>::empty());
        }
        Self { value, next: None }
    }

    /// A link holding `value` in front of `next`.
    fn with_next(value: T, next: Box<Node<T>>) -> (r: Self)
        ensures
            opt_seq(Some(Box::new(r))) =~= seq![value] + opt_seq(Some(next)),
    {
        Self { value, next: Some(next) }
    }
}

/// A singly linked list.
pub struct List<T> {
    head: Option<Box<Node<T>>>,
}

impl<T> View for List<T> {
    type V = Seq<T>;

    closed spec fn view(&self) -> Seq<T> {
        opt_seq(self.head)
    }
}

fn push_back_opt<T>(o: &mut Option<Box<Node<T>>>, value: T)
    ensures
        opt_seq(*final(o)) == opt_seq(*old(o)).push(value),
    decreases *old(o),
{
    match o.take() {
        None => {
            *o = Some(Box::new(Node::new(value)));
            proof {
                assert(opt_seq(*old(o)).push(value) =~= seq![value]);
            }
        },
        Some(mut boxed) => {
            push_back_opt(&mut boxed.next, value);
            *o = Some(boxed);
            proof {
                assert(seq![old(o).unwrap().value] + opt_seq(old(o).unwrap().next).push(value)
                    =~= opt_seq(*old(o)).push(value));
            }
        },
    }
}

fn remove_back_opt<T>(o: &mut Option<Box<Node<T>>>) -> (r: Option<T>)
    ensures
        opt_seq(*old(o)).len() == 0 ==> r.is_none() && opt_seq(*final(o)) == opt_seq(*old(o)),
        opt_seq(*old(o)).len() > 0 ==> r.is_some() && r.unwrap() == opt_seq(*old(o)).last()
            && opt_seq(*final(o)) == opt_seq(*old(o)).drop_last(),
    decreases *old(o),
{
    match o.take() {
        None => None,
        Some(mut boxed) => {
            if boxed.next.is_none() {
                proof {
                    assert(opt_seq(Option::<Box<Node<T>>>::None) =~= Seq::<T>::empty());
                    assert(opt_seq(*old(o)) =~= seq![old(o).unwrap().value]);
                    assert(opt_seq(*old(o)).drop_last() =~= Seq::<T>::empty());
                }
                Some(boxed.value)
            } else {
                let r = remove_back_opt(&mut boxed.next);
                *o = Some(boxed);
                proof {
                    assert(opt_seq(*old(o)).last() == opt_seq(old(o).unwrap().next).last());
                    assert(seq![old(o).unwrap().value] + opt_seq(old(o).unwrap().next).drop_last()
                        =~= opt_seq(*old(o)).drop_last());
                }
                r
            }
        },
    }
}

fn count_opt<T>(o: &Option<Box<Node<T>>>) -> (r: usize)
    requires
        opt_seq(*o).len() <= usize::MAX,
    ensures
        r == opt_seq(*o).len(),
    decreases *o,
{
    match o {
        None => 0,
        Some(node) => 1 + count_opt(&node.next),
    }
}

fn get_opt<T>(o: &Option<Box<Node<T>>>, i: usize) -> (r: Option<&T>)
    ensures
        i < opt_seq(*o).len() ==> r.is_some() && *r.unwrap() == opt_seq(*o)[i as int],
        i >= opt_seq(*o).len() ==> r.is_none(),
    decreases *o,
{
    match o {
        None => None,
        Some(node) => {
            if i == 0 {
                Some(&node.value)
            } else {
                get_opt(&node.next, i - 1)
            }
        },
    }
}

fn get_mut_opt<T>(o: &mut Option<Box<Node<T>>>, i: usize) -> (r: Option<&mut T>)
    ensures
        i < opt_seq(*old(o)).len() ==> r.is_some() && *r.unwrap() == opt_seq(*old(o))[i as int]
            && opt_seq(*final(o)) == opt_seq(*old(o)).update(i as int, *final(r.unwrap())),
        i >= opt_seq(*old(o)).len() ==> r.is_none() && opt_seq(*final(o)) == opt_seq(*old(o)),
    decreases *old(o),
{
    match o {
        None => None,
        Some(node) => {
            if i == 0 {
                let r = &mut node.value;
                proof {
                    assert(opt_seq(*old(o)).update(0, *final(r)) =~= seq![*final(r)] + opt_seq(
                        old(o).unwrap().next,
                    ));
                }
                Some(r)
            } else {
                let r = get_mut_opt(&mut node.next, i - 1);
                proof {
                    if i < opt_seq(*old(o)).len() {
                        assert(opt_seq(*old(o)).update(i as int, *final(r.unwrap())) =~= seq![
                            old(o).unwrap().value,
                        ] + opt_seq(old(o).unwrap().next).update(i - 1, *final(r.unwrap())));
                    }
                }
                r
            }
        },
    }
}

impl<T> List<T> {
    /// An empty list.
    pub fn new() -> (r: Self)
        ensures
            r@ == Seq::<T>::empty(),
    {
        Self { head: None }
    }

    /// Puts `value` in front of all current values.
    pub fn push_front(&mut self, value: T)
        ensures
            final(self)@ == seq![value] + old(self)@,
    {
        match self.head.take() {
            Some(head) => {
                self.head = Some(Box::new(Node::with_next(value, head)));
            },
            None => {
                self.head = Some(Box::new(Node::new(value)));
                proof {
                    assert(seq![value] + old(self)@ =~= seq![value]);
                }
            },
        }
    }

    /// Appends `value` after all current values.
    pub fn push_back(&mut self, value: T)
        ensures
            final(self)@ == old(self)@.push(value),
    {
        push_back_opt(&mut self.head, value);
    }

    /// The number of values held.
    pub fn count(&self) -> (r: usize)
        requires
            self@.len() <= usize::MAX,
        ensures
            r == self@.len(),
    {
        count_opt(&self.head)
    }

    /// The value at position `i`, if the list is that long.
    pub fn get(&self, i: usize) -> (r: Option<&T>)
        ensures
            i < self@.len() ==> r.is_some() && *r.unwrap() == self@[i as int],
            i >= self@.len() ==> r.is_none(),
    {
        get_opt(&self.head, i)
    }

    /// Exclusive access to the value at position `i`, if the list is that
    /// long; writing through it updates that position alone.
    pub fn get_mut(&mut self, i: usize) -> (r: Option<&mut T>)
        ensures
            i < old(self)@.len() ==> r.is_some() && *r.unwrap() == old(self)@[i as int]
                && final(self)@ == old(self)@.update(i as int, *final(r.unwrap())),
            i >= old(self)@.len() ==> r.is_none() && final(self)@ == old(self)@,
    {
        get_mut_opt(&mut self.head, i)
    }

    /// Detaches and returns the first value, if any.
    pub fn remove_front(&mut self) -> (r: Option<T>)
        ensures
            old(self)@.len() == 0 ==> r.is_none() && final(self)@ == old(self)@,
            old(self)@.len() > 0 ==> r.is_some() && r.unwrap() == old(self)@[0] && final(self)@
                == old(self)@.skip(1),
    {
        match self.head.take() {
            Some(head) => {
                self.head = head.next;
                proof {
                    assert(opt_seq(old(self).head.unwrap().next) =~= old(self)@.skip(1));
                }
                Some(head.value)
            },
            None => None,
        }
    }

    /// Detaches and returns the last value, if any.
    pub fn remove_back(&mut self) -> (r: Option<T>)
        ensures
            old(self)@.len() == 0 ==> r.is_none() && final(self)@ == old(self)@,
            old(self)@.len() > 0 ==> r.is_some() && r.unwrap() == old(self)@.last()
                && final(self)@ == old(self)@.drop_last(),
    {
        remove_back_opt(&mut self.head)
    }

    /// Drops every value.
    pub fn clear(&mut self)
        ensures
            final(self)@ == Seq::<T>::empty(),
    {
        self.head = None;
    }
}

fn clone_opt<T: Clone>(o: &Option<Box<Node<T>>>) -> (r: Option<Box<Node<T>>>)
    ensures
        opt_seq(r).len() == opt_seq(*o).len(),
        forall|i: int|
            0 <= i < opt_seq(*o).len() ==> cloned::<T>(opt_seq(*o)[i], #[trigger] opt_seq(r)[i]),
    decreases *o,
{
    match o {
        None => None,
        Some(node) => {
            let value = node.value.clone();
            let rest = clone_opt(&node.next);
            let ghost tail = opt_seq(node.next);
            let r = Some(Box::new(Node { value, next: rest }));
            proof {
                assert(opt_seq(*o) =~= seq![node.value] + tail);
                assert forall|i: int|
                    0 <= i < opt_seq(*o).len() implies cloned::<T>(
                    opt_seq(*o)[i],
                    #[trigger] opt_seq(r)[i],
                ) by {
                    if i > 0 {
                        assert(opt_seq(*o)[i] == tail[i - 1]);
                    }
                }
            }
            r
        },
    }
}

impl<T: Clone> Clone for List<T> {
    /// A list holding a clone of each value, in the same order.
    fn clone(&self) -> (res: Self)
        ensures
            res@.len() == self@.len(),
            forall|i: int| 0 <= i < self@.len() ==> cloned::<T>(self@[i], #[trigger] res@[i]),
    {
        List { head: clone_opt(&self.head) }
    }
}

impl<T> Default for List<T> {
    /// The empty list.
    fn default() -> (r: Self)
        ensures
            r@ == Seq::<T>::empty(),
    {
        Self::new()
    }
}

} // verus!
