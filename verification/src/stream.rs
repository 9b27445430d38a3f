//! Local streams: in-memory element sequences with map, filter and
//! count-based tumbling windows.

use vstd::prelude::*;

verus! {

/// A size-based tumbling window: consecutive chunks of a fixed element
/// count.
pub struct SizeTumblingWindow {
    pub size: usize,
}

/// The kinds of windows the engine knows.
pub enum WindowType {
    Tumbling,
    Sliding,
    Session,
}

/// A window declares its kind.
pub trait Window {
    fn get_type(&self) -> WindowType;
}

impl Window for SizeTumblingWindow {
    fn get_type(&self) -> WindowType {
        WindowType::Tumbling
    }
}

/// An in-memory stream of elements.
#[derive(Debug, Clone)]
pub struct LocalStream<T> {
    pub data: Vec<T>,
}

/// A stream cut into count-based tumbling windows.
pub struct LocalWindowedStream<T> {
    pub data: Vec<T>,
    pub window_size: usize,
}

/// The elements of `data` whose verdict is true, in order.
pub open spec fn spec_mask_filter<T>(data: Seq<T>, dec: Seq<bool>) -> Seq<T>
    recommends
        data.len() == dec.len(),
    decreases data.len(),
{
    if data.len() == 0 {
        Seq::empty()
    } else {
        spec_mask_filter(data.drop_last(), dec.drop_last()) + (if dec.len() > 0 && dec.last() {
            seq![data.last()]
        } else {
            Seq::empty()
        })
    }
}

/// The data cut into chunks of `size`; the final chunk may be shorter.
pub open spec fn spec_chunks<T>(data: Seq<T>, size: int) -> Seq<Seq<T>>
    recommends
        size >= 1,
    decreases data.len(),
    when size >= 1
{
    if data.len() == 0 {
        Seq::empty()
    } else if data.len() <= size {
        seq![data]
    } else {
        seq![data.take(size)] + spec_chunks(data.skip(size), size)
    }
}

impl<T> LocalStream<T> {
    /// A stream over the given elements.
    pub fn from_vec(data: Vec<T>) -> (r: Self)
        ensures
            r.data@ == data@,
    {
        LocalStream { data }
    }

    /// Map every element through the function, in order.
    pub fn map<R, F: Fn(T) -> R>(self, func: F) -> (r: LocalStream<R>)
        requires
            forall|t: T| #[trigger] func.requires((t,)),
        ensures
            r.data@.len() == self.data@.len(),
            forall|i: int|
                0 <= i < self.data@.len() ==> func.ensures(
                    (self.data@[i],),
                    #[trigger] r.data@[i],
                ),
    {
        let ghost orig = self.data@;
        let mut out: Vec<R> = Vec::new();
        let mut rest = self.data;
        let n = rest.len();
        let mut i: usize = 0;
        while i < n
            invariant
                i <= n,
                n == orig.len(),
                rest@ == orig.skip(i as int),
                out@.len() == i,
                forall|j: int|
                    0 <= j < i ==> func.ensures((orig[j],), #[trigger] out@[j]),
                forall|t: T| #[trigger] func.requires((t,)),
            decreases n - i,
        {
            proof {
                assert(rest@.len() == orig.skip(i as int).len());
                assert(orig.skip(i as int)[0] == orig[i as int]);
            }
            let x = rest.remove(0);
            let y = func(x);
            out.push(y);
            proof {
                assert(rest@ =~= orig.skip(i + 1));
            }
            i += 1;
        }
        LocalStream { data: out }
    }

    /// Keep exactly the elements the predicate accepted, in order: some
    /// sequence of its verdicts, one per element, explains the result.
    pub fn filter<F: Fn(&T) -> bool>(self, func: F) -> (r: Self)
        requires
            forall|t: &T| #[trigger] func.requires((t,)),
        ensures
            r.data@.len() <= self.data@.len(),
            exists|dec: Seq<bool>|
                {
                    &&& dec.len() == self.data@.len()
                    &&& (forall|i: int|
                        0 <= i < dec.len() ==> func.ensures(
                            (&self.data@[i],),
                            #[trigger] dec[i],
                        ))
                    &&& r.data@ == spec_mask_filter(self.data@, dec)
                },
    {
        let ghost orig = self.data@;
        let mut out: Vec<T> = Vec::new();
        let ghost mut dec: Seq<bool> = Seq::empty();
        let mut rest = self.data;
        let n = rest.len();
        let mut i: usize = 0;
        proof {
            assert(orig.take(0) =~= Seq::<T>::empty());
        }
        while i < n
            invariant
                i <= n,
                n == orig.len(),
                rest@ == orig.skip(i as int),
                dec.len() == i,
                forall|j: int|
                    0 <= j < i ==> func.ensures((&orig[j],), #[trigger] dec[j]),
                out@ == spec_mask_filter(orig.take(i as int), dec),
                out@.len() <= i,
                forall|t: &T| #[trigger] func.requires((t,)),
            decreases n - i,
        {
            proof {
                assert(rest@.len() == orig.skip(i as int).len());
                assert(orig.skip(i as int)[0] == orig[i as int]);
            }
            let ghost pre_out = out@;
            let x = rest.remove(0);
            let keep = func(&x);
            if keep {
                out.push(x);
            }
            proof {
                let pre_dec = dec;
                dec = dec.push(keep);
                assert(orig.take(i + 1).drop_last() =~= orig.take(i as int));
                assert(orig.take(i + 1).last() == orig[i as int]);
                assert(dec.drop_last() =~= pre_dec);
                if keep {
                    assert(out@ =~= pre_out.push(orig[i as int]));
                    assert(pre_out + seq![orig[i as int]] =~= out@);
                } else {
                    assert(pre_out + Seq::<T>::empty() =~= pre_out);
                }
                assert(rest@ =~= orig.skip(i + 1));
            }
            i += 1;
        }
        proof {
            assert(orig.take(n as int) =~= orig);
        }
        LocalStream { data: out }
    }

    /// The stream's elements.
    pub fn collect(self) -> (r: Vec<T>)
        ensures
            r@ == self.data@,
    {
        self.data
    }

    /// Cut the stream into count-based tumbling windows; a size below one
    /// counts as one.
    pub fn window_tumbling(self, window: SizeTumblingWindow) -> (r: LocalWindowedStream<T>)
        ensures
            r.data@ == self.data@,
            r.window_size == if window.size < 1 {
                1int
            } else {
                window.size as int
            },
    {
        LocalWindowedStream {
            data: self.data,
            window_size: if window.size < 1 {
                1
            } else {
                window.size
            },
        }
    }
}

impl<T> LocalWindowedStream<T> {
    /// The windows, in order: full chunks of the window size, with a final
    /// shorter chunk for any leftover elements.
    pub fn collect_windows(self) -> (r: Vec<Vec<T>>)
        requires
            self.window_size >= 1,
        ensures
            view_nested(r@) == spec_chunks(self.data@, self.window_size as int),
    {
        let ghost whole = self.data@;
        let size = self.window_size;
        let mut out: Vec<Vec<T>> = Vec::new();
        let mut rest = self.data;
        proof {
            assert(whole.skip(0) =~= whole);
            assert(view_nested(out@) =~= Seq::<Seq<T>>::empty());
        }
        let mut consumed: usize = 0;
        let total = rest.len();
        while consumed < total
            invariant
                consumed <= total,
                total == whole.len(),
                size >= 1,
                rest@ == whole.skip(consumed as int),
                spec_chunks(whole, size as int) == view_nested(out@) + spec_chunks(
                    whole.skip(consumed as int),
                    size as int,
                ),
            decreases total - consumed,
        {
            let remaining = total - consumed;
            let take_n = if remaining < size {
                remaining
            } else {
                size
            };
            let ghost pre_rest = rest@;
            let ghost pre_out = out@;
            let mut chunk: Vec<T> = Vec::new();
            let mut j: usize = 0;
            while j < take_n
                invariant
                    j <= take_n,
                    take_n <= pre_rest.len(),
                    pre_rest.len() == rest@.len() + j,
                    chunk@ == pre_rest.take(j as int),
                    rest@ == pre_rest.skip(j as int),
                decreases take_n - j,
            {
                proof {
                    assert(rest@.len() == pre_rest.skip(j as int).len());
                }
                let x = rest.remove(0);
                chunk.push(x);
                proof {
                    assert(rest@ =~= pre_rest.skip(j + 1));
                    assert(chunk@ =~= pre_rest.take(j + 1));
                }
                j += 1;
            }
            proof {
                assert(pre_rest =~= whole.skip(consumed as int));
                if remaining <= size {
                    assert(pre_rest.take(take_n as int) =~= pre_rest);
                    assert(spec_chunks(pre_rest, size as int) == seq![pre_rest]);
                    assert(pre_rest.skip(take_n as int) =~= whole.skip((consumed + take_n) as int));
                } else {
                    assert(spec_chunks(pre_rest, size as int) == seq![pre_rest.take(size as int)]
                        + spec_chunks(pre_rest.skip(size as int), size as int));
                    assert(pre_rest.skip(take_n as int) =~= whole.skip((consumed + take_n) as int));
                }
            }
            let ghost chunk_view = chunk@;
            out.push(chunk);
            proof {
                assert(view_nested(out@) =~= view_nested(pre_out).push(chunk_view));
                assert(view_nested(pre_out) + (seq![chunk_view] + spec_chunks(
                    whole.skip((consumed + take_n) as int),
                    size as int,
                )) =~= (view_nested(pre_out) + seq![chunk_view]) + spec_chunks(
                    whole.skip((consumed + take_n) as int),
                    size as int,
                ));
                if remaining <= size {
                    assert(spec_chunks(whole.skip((consumed + take_n) as int), size as int)
                        =~= Seq::<Seq<T>>::empty());
                    assert(seq![chunk_view] + spec_chunks(
                        whole.skip((consumed + take_n) as int),
                        size as int,
                    ) =~= seq![chunk_view]);
                }
            }
            consumed += take_n;
        }
        proof {
            assert(whole.skip(total as int) =~= Seq::<T>::empty());
            assert(spec_chunks(Seq::<T>::empty(), size as int) =~= Seq::<Seq<T>>::empty());
            assert(view_nested(out@) + Seq::<Seq<T>>::empty() =~= view_nested(out@));
        }
        out
    }
}

/// The views of a vector of vectors.
pub open spec fn view_nested<T>(v: Seq<Vec<T>>) -> Seq<Seq<T>> {
    v.map_values(|x: Vec<T>| x@)
}

} // verus!
