use vstd::prelude::*;

verus! {

/// The last `len` items of `vec`, or all of them where it holds fewer.
pub fn truncate_tail<T>(vec: Vec<T>, len: usize) -> (tail: Vec<T>)
    ensures
        tail@ == if len > vec@.len() {
            vec@
        } else {
            vec@.skip(vec@.len() - len)
        },
{
    if len > vec.len() {
        return vec;
    }
    let mut head = vec;
    let at = head.len() - len;
    let tail = head.split_off(at);
    proof {
        assert(vec@.subrange(at as int, vec@.len() as int) =~= vec@.skip(at as int));
    }
    tail
}

} // verus!
