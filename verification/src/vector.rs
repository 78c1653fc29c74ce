//! Row, column and diagonal vectors, and strided runs of a buffer.

use vstd::prelude::*;
use crate::layout::Strided;

verus! {

/// A row vector over the storage `V`.
pub struct Row<V>(pub V);

/// A column vector over the storage `V`.
pub struct Col<V>(pub V);

/// A diagonal of a matrix over the storage `V`.
pub struct Diag<V>(pub V);

impl<V> Row<V> {
    /// The same vector, standing up.
    pub fn t(self) -> (r: Col<V>)
        ensures
            r.0 == self.0,
    {
        Col(self.0)
    }
}

impl<V> Col<V> {
    /// The same vector, lying down.
    pub fn t(self) -> (r: Row<V>)
        ensures
            r.0 == self.0,
    {
        Row(self.0)
    }
}

/// The vector of `len` elements whose element `i` is what `f(i)` returned.
/// `f` is called once for each element, first to last, and may keep a state
/// of its own from call to call.
pub fn from_fn<T, F: FnMut(usize) -> T>(len: usize, mut f: F) -> (r: Vec<T>)
    requires
        forall|i: usize| i < len ==> call_requires(f, (i,)),
    ensures
        r@.len() == len,
        forall|i: usize| i < len ==> call_ensures(f, (i,), #[trigger] r@[i as int]),
{
    let ghost given = f;
    let mut data: Vec<T> = Vec::new();
    let mut i: usize = 0;
    while i < len
        invariant
            i <= len,
            data@.len() == i,
            f == given,
            forall|k: usize| k < len ==> call_requires(f, (k,)),
            forall|k: usize| k < i ==> call_ensures(f, (k,), #[trigger] data@[k as int]),
        decreases len - i,
    {
        data.push(f(i));
        i = i + 1;
    }
    data
}

/// A shared view of a run of a buffer: `len` elements, `stride` apart.
pub struct Slice<'a, T> {
    pub data: &'a [T],
    pub layout: Strided,
}

impl<'a, T> Clone for Slice<'a, T> {
    fn clone(&self) -> (r: Self)
        ensures
            r == *self,
    {
        Slice { data: self.data, layout: self.layout }
    }
}

impl<'a, T> Copy for Slice<'a, T> {

}

impl<'a, T> View for Slice<'a, T> {
    type V = Seq<T>;

    /// The elements of the run, first to last.
    open spec fn view(&self) -> Seq<T> {
        self.layout.seq(self.data@)
    }
}

impl<'a, T> Slice<'a, T> {
    /// The run lies inside the buffer.
    pub open spec fn wf(&self) -> bool {
        &&& self.layout.wf()
        &&& self.layout.fits(self.data@.len() as int)
    }

    /// All of `data` as a run of consecutive elements.
    pub fn new(data: &'a [T]) -> (r: Slice<'a, T>)
        ensures
            r.wf(),
            r@ == data@,
            r.data@ == data@,
            r.layout == (Strided { offset: 0, len: data@.len() as usize, stride: 1 }),
    {
        let r = Slice { data, layout: Strided { offset: 0, len: data.len(), stride: 1 } };
        assert(r@ =~= data@);
        r
    }

    /// The view of the run `layout` of `data`; `None` unless the run is
    /// valid and lies inside `data`.
    pub fn from_parts(data: &'a [T], layout: Strided) -> (r: Option<Slice<'a, T>>)
        ensures
            r == if layout.wf() && layout.fits(data@.len() as int) {
                Some(Slice { data, layout })
            } else {
                None
            },
    {
        if layout.check(data.len()) {
            Some(Slice { data, layout })
        } else {
            None
        }
    }

    /// Number of elements.
    pub fn len(&self) -> (n: usize)
        ensures
            n == self.layout.len,
            n == self@.len(),
    {
        self.layout.len
    }

    /// Whether the run is valid and lies inside its buffer.
    pub fn is_wf(&self) -> (r: bool)
        ensures
            r == self.wf(),
    {
        self.layout.check(self.data.len())
    }

    /// Element `i`, or `None` where `i` is not below the length.
    pub fn at(&self, i: usize) -> (r: Option<&'a T>)
        requires
            self.wf(),
        ensures
            r == if i < self@.len() { Some(&self@[i as int]) } else { None },
    {
        match self.layout.at(i) {
            Some(k) => {
                proof {
                    self.layout.lemma_index_bound(self.data@.len() as int, i as int);
                }
                Some(&self.data[k])
            },
            None => None,
        }
    }

    /// The run of elements `[start, end)`, or `None` unless
    /// `start <= end <= len`.
    pub fn slice(&self, start: usize, end: usize) -> (r: Option<Slice<'a, T>>)
        requires
            self.wf(),
        ensures
            r is Some <==> start <= end <= self@.len(),
            r matches Some(s) ==> s.wf() && s@ == self@.subrange(start as int, end as int)
                && s.data@ == self.data@ && s.layout == self.layout.sub(start as int, end as int),
    {
        match self.layout.slice(start, end) {
            Some(layout) => {
                proof {
                    self.layout.lemma_sub(self.data@.len() as int, start as int, end as int);
                    self.layout.lemma_sub_seq(self.data@, start as int, end as int);
                }
                Some(Slice { data: self.data, layout })
            },
            None => None,
        }
    }
}

impl<'a, T> Slice<'a, T> {
    /// The elements, first to last.
    pub fn iter(&self) -> (r: Items<'a, T>)
        requires
            self.wf(),
        ensures
            r.wf(),
            r.source() == *self,
            r.state() == 0,
            r.stop() == self@.len(),
            r.remaining() == self@,
    {
        let r = Items { source: *self, state: 0, stop: self.layout.len };
        assert(r.remaining() =~= self@);
        r
    }
}

/// The elements `[state, stop)` of a run, handed out one at a time from
/// either end.
pub struct Items<'a, T> {
    source: Slice<'a, T>,
    state: usize,
    stop: usize,
}

impl<'a, T> Items<'a, T> {
    /// The run whose elements are handed out.
    pub closed spec fn source(&self) -> Slice<'a, T> {
        self.source
    }

    /// Index of the next element from the front.
    pub closed spec fn state(&self) -> usize {
        self.state
    }

    /// One past the index of the next element from the back.
    pub closed spec fn stop(&self) -> usize {
        self.stop
    }

    /// The elements left to hand out exist.
    pub open spec fn wf(&self) -> bool {
        &&& self.source().wf()
        &&& self.state() <= self.stop() <= self.source()@.len()
    }

    /// The elements left to hand out, in order from the front.
    pub open spec fn remaining(&self) -> Seq<T> {
        self.source()@.subrange(self.state() as int, self.stop() as int)
    }

    /// The first element left, if any; the iterator moves past it.
    pub fn next(&mut self) -> (r: Option<&'a T>)
        requires
            old(self).wf(),
        ensures
            final(self).wf(),
            final(self).source() == old(self).source(),
            final(self).stop() == old(self).stop(),
            final(self).state() == if old(self).state() < old(self).stop() {
                old(self).state() + 1
            } else {
                old(self).state() as int
            },
            r == if old(self).remaining().len() > 0 {
                Some(&old(self).remaining().first())
            } else {
                None
            },
            final(self).remaining() == if old(self).remaining().len() > 0 {
                old(self).remaining().drop_first()
            } else {
                old(self).remaining()
            },
    {
        if self.state < self.stop {
            let state = self.state;
            self.state = state + 1;
            assert(self.remaining() =~= old(self).remaining().drop_first());
            self.source.at(state)
        } else {
            None
        }
    }

    /// The last element left, if any; the iterator's end moves before it.
    pub fn next_back(&mut self) -> (r: Option<&'a T>)
        requires
            old(self).wf(),
        ensures
            final(self).wf(),
            final(self).source() == old(self).source(),
            final(self).state() == old(self).state(),
            final(self).stop() == if old(self).state() < old(self).stop() {
                old(self).stop() - 1
            } else {
                old(self).stop() as int
            },
            r == if old(self).remaining().len() > 0 {
                Some(&old(self).remaining().last())
            } else {
                None
            },
            final(self).remaining() == if old(self).remaining().len() > 0 {
                old(self).remaining().drop_last()
            } else {
                old(self).remaining()
            },
    {
        if self.state < self.stop {
            self.stop = self.stop - 1;
            assert(self.remaining() =~= old(self).remaining().drop_last());
            self.source.at(self.stop)
        } else {
            None
        }
    }

    /// How many elements are left: a lower bound and an upper bound, which
    /// are always the same number. This holds in every state that the
    /// iterator can reach, whatever was taken from its front or its back
    /// before.
    pub fn size_hint(&self) -> (r: (usize, Option<usize>))
        requires
            self.wf(),
        ensures
            r.0 == self.stop() - self.state(),
            r.0 == self.remaining().len(),
            r.1 == Some(r.0),
    {
        let exact = self.stop - self.state;

        (exact, Some(exact))
    }

    /// The rest of the iterator without its first `n` elements, or without
    /// any element where fewer than `n` are left.
    pub fn skip(self, n: usize) -> (r: Items<'a, T>)
        requires
            self.wf(),
        ensures
            r.wf(),
            r.source() == self.source(),
            r.stop() == self.stop(),
            r.remaining() == if n <= self.remaining().len() {
                self.remaining().subrange(n as int, self.remaining().len() as int)
            } else {
                Seq::empty()
            },
    {
        let left = self.stop - self.state;
        let state = if n <= left { self.state + n } else { self.stop };
        let r = Items { source: self.source, state, stop: self.stop };
        proof {
            if n <= left {
                assert(r.remaining() =~= self.remaining().subrange(
                    n as int,
                    self.remaining().len() as int,
                ));
            } else {
                assert(r.remaining() =~= Seq::empty());
            }
        }
        r
    }

    /// Number of elements left; uses the iterator up.
    pub fn count(self) -> (n: usize)
        requires
            self.wf(),
        ensures
            n == self.remaining().len(),
    {
        self.stop - self.state
    }

    /// The elements left, first to last; uses the iterator up.
    pub fn collect(self) -> (v: Vec<&'a T>)
        requires
            self.wf(),
        ensures
            v@.len() == self.remaining().len(),
            forall|i: int| 0 <= i < v@.len() ==> *#[trigger] v@[i] == self.remaining()[i],
    {
        let mut it = self;
        let mut v: Vec<&'a T> = Vec::new();
        loop
            invariant
                it.wf(),
                v@.len() + it.remaining().len() == self.remaining().len(),
                forall|i: int| 0 <= i < v@.len() ==> *#[trigger] v@[i] == self.remaining()[i],
                forall|i: int|
                    0 <= i < it.remaining().len() ==> #[trigger] it.remaining()[i]
                        == self.remaining()[v@.len() + i],
            ensures
                it.remaining().len() == 0,
            decreases it.remaining().len(),
        {
            match it.next() {
                Some(e) => {
                    v.push(e);
                },
                None => {
                    break ;
                },
            }
        }
        v
    }

    /// The elements left, last to first; uses the iterator up.
    pub fn collect_rev(self) -> (v: Vec<&'a T>)
        requires
            self.wf(),
        ensures
            v@.len() == self.remaining().len(),
            forall|i: int|
                0 <= i < v@.len() ==> *#[trigger] v@[i] == self.remaining().reverse()[i],
    {
        let mut it = self;
        let mut v: Vec<&'a T> = Vec::new();
        loop
            invariant
                it.wf(),
                v@.len() + it.remaining().len() == self.remaining().len(),
                forall|i: int|
                    0 <= i < v@.len() ==> *#[trigger] v@[i] == self.remaining()[
                        self.remaining().len() - 1 - i],
                forall|i: int|
                    0 <= i < it.remaining().len() ==> #[trigger] it.remaining()[i]
                        == self.remaining()[i],
            ensures
                it.remaining().len() == 0,
            decreases it.remaining().len(),
        {
            match it.next_back() {
                Some(e) => {
                    v.push(e);
                },
                None => {
                    break ;
                },
            }
        }
        v
    }

    /// Going through the elements from the back gives the elements in
    /// reverse: after `k` elements were skipped at the front, the `i`-th
    /// element from the back is the element that is `i` places before the
    /// last of all.
    pub proof fn law_reverse_mirrors(&self, k: int, i: int)
        requires
            self.wf(),
            0 <= k < self.remaining().len(),
            0 <= i < self.remaining().len() - k,
        ensures
            self.remaining().subrange(k, self.remaining().len() as int).reverse()[i]
                == self.remaining()[self.remaining().len() - 1 - i],
            self.remaining().subrange(k, self.remaining().len() as int).reverse()
                == self.remaining().reverse().subrange(0, self.remaining().len() - k),
    {
        let all = self.remaining();
        let n = all.len() as int;
        assert(all.subrange(k, n).reverse() =~= all.reverse().subrange(0, n - k));
    }
}

/// An exclusive view of a run of a buffer: `len` elements, `stride` apart.
pub struct MutSlice<'a, T> {
    pub data: &'a mut [T],
    pub layout: Strided,
}

impl<'a, T> View for MutSlice<'a, T> {
    type V = Seq<T>;

    /// The elements of the run as they are now, first to last.
    open spec fn view(&self) -> Seq<T> {
        self.layout.seq(self.data@)
    }
}

impl<'a, T> MutSlice<'a, T> {
    /// The whole buffer that the run reaches into, as it is now.
    pub open spec fn buffer(&self) -> Seq<T> {
        self.data@
    }

    /// The run lies inside the buffer, and no two of its elements share a
    /// place there.
    pub open spec fn wf(&self) -> bool {
        &&& self.layout.wf()
        &&& self.layout.fits(self.data@.len() as int)
        &&& self.layout.stride >= 1
    }

    /// All of `data` as a run of consecutive elements.
    pub fn new(data: &'a mut [T]) -> (r: MutSlice<'a, T>)
        ensures
            r.wf(),
            r@ == old(data)@,
            r.buffer() == old(data)@,
            r.layout == (Strided { offset: 0, len: old(data)@.len() as usize, stride: 1 }),
            final(r.data)@ == final(data)@,
    {
        let len = data.len();
        let r = MutSlice { data, layout: Strided { offset: 0, len, stride: 1 } };
        assert(r@ =~= r.buffer());
        r
    }

    /// The exclusive view of the run `layout` of `data`; `None` unless the
    /// run is valid, lies inside `data` and has a stride of at least one.
    pub fn from_parts(data: &'a mut [T], layout: Strided) -> (r: Option<MutSlice<'a, T>>)
        ensures
            r is Some <==> layout.wf() && layout.fits(old(data)@.len() as int) && layout.stride
                >= 1,
            r matches Some(v) ==> v.wf() && v.buffer() == old(data)@ && v.layout == layout
                && final(v.data)@ == final(data)@,
            r is None ==> final(data)@ == old(data)@,
    {
        if layout.stride >= 1 && layout.check(data.len()) {
            Some(MutSlice { data, layout })
        } else {
            None
        }
    }

    /// Number of elements.
    pub fn len(&self) -> (n: usize)
        ensures
            n == self.layout.len,
            n == self@.len(),
    {
        self.layout.len
    }

    /// Whether the run is valid, lies inside its buffer and has a stride of
    /// at least one.
    pub fn is_wf(&self) -> (r: bool)
        ensures
            r == self.wf(),
    {
        let data: &[T] = &*self.data;
        self.layout.stride >= 1 && self.layout.check(data.len())
    }

    /// A shared view of the same elements, for as long as this view is not
    /// written through.
    pub fn as_slice(&self) -> (r: Slice<'_, T>)
        ensures
            r.data@ == self.buffer(),
            r.layout == self.layout,
            r@ == self@,
            self.wf() ==> r.wf(),
    {
        Slice { data: &*self.data, layout: self.layout }
    }

    /// Element `i`, or `None` where `i` is not below the length.
    pub fn at(&self, i: usize) -> (r: Option<&T>)
        requires
            self.wf(),
        ensures
            r == if i < self@.len() { Some(&self@[i as int]) } else { None },
    {
        match self.layout.at(i) {
            Some(k) => {
                proof {
                    self.layout.lemma_index_bound(self.data@.len() as int, i as int);
                }
                Some(&self.data[k])
            },
            None => None,
        }
    }

    /// Element `i` for writing, or `None` where `i` is not below the length.
    /// Whatever is written lands at that element's place in the buffer, and
    /// nowhere else.
    pub fn at_mut(&mut self, i: usize) -> (r: Option<&mut T>)
        requires
            old(self).wf(),
        ensures
            final(self).layout == old(self).layout,
            final(final(self).data)@ == final(old(self).data)@,
            r is Some <==> i < old(self)@.len(),
            r is None ==> final(self).buffer() == old(self).buffer(),
            r matches Some(e) ==> *e == old(self)@[i as int] && final(self).buffer() == old(
                self,
            ).buffer().update(old(self).layout.index(i as int), *final(e)),
    {
        match self.layout.at(i) {
            Some(k) => {
                proof {
                    self.layout.lemma_index_bound(self.data@.len() as int, i as int);
                }
                Some(&mut self.data[k])
            },
            None => None,
        }
    }

    /// The exclusive view of the elements `[start, end)`, or `None` unless
    /// `start <= end <= len`. The sub-view borrows this view: what is written
    /// through it is what this view shows once the sub-view is gone.
    pub fn mut_slice<'b>(&'b mut self, start: usize, end: usize) -> (r: Option<MutSlice<'b, T>>)
        requires
            old(self).wf(),
        ensures
            final(self).layout == old(self).layout,
            final(final(self).data)@ == final(old(self).data)@,
            r is Some <==> start <= end <= old(self)@.len(),
            r is None ==> final(self).buffer() == old(self).buffer(),
            r matches Some(s) ==> s.wf() && s@ == old(self)@.subrange(start as int, end as int)
                && s.buffer() == old(self).buffer() && s.layout == old(self).layout.sub(
                start as int,
                end as int,
            ) && final(self).buffer() == final(s.data)@,
    {
        match self.layout.slice(start, end) {
            Some(layout) => {
                proof {
                    self.layout.lemma_sub(self.data@.len() as int, start as int, end as int);
                    self.layout.lemma_sub_seq(self.data@, start as int, end as int);
                }
                Some(MutSlice { data: &mut *self.data, layout })
            },
            None => None,
        }
    }
}

} // verus!
