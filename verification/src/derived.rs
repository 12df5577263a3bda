//! Sources derived from another source by mapping its windows.
use vstd::prelude::*;

use crate::source::WindowSource;
use crate::time::Timestamp;
use crate::window::Window;

verus! {

/// A [`WindowSource`] derived from another source by mapping its windows.
///
/// A derived source exposes an underlying source via [`Self::source`] and
/// transforms each produced window via [`Self::map_window`]; it implements
/// [`WindowSource`] through a blanket impl. `map_window` may change the whole
/// window, timing included. The default [`Self::map_active_windows`] and
/// [`Self::map_next_window`] delegate to the underlying source and map each
/// result; an implementation may override them freely.
pub trait DerivedWindowSource {
    /// The underlying source type being adapted.
    type Source: WindowSource;

    /// The metadata type exposed by the derived source.
    type Meta;

    /// Returns the underlying source.
    fn source(&self) -> &Self::Source;

    /// Maps a window of the underlying source into a window of this source.
    fn map_window(&self, window: Window<<Self::Source as WindowSource>::Meta>) -> Window<
        Self::Meta,
    >;

    /// Returns all active windows of the underlying source, mapped through
    /// [`Self::map_window`].
    fn map_active_windows(&self, now: Timestamp) -> (r: Vec<Window<Self::Meta>>)
        default_ensures
            exists|src: &Self::Source, ws: Vec<Window<<Self::Source as WindowSource>::Meta>>|
                #![trigger call_ensures(Self::source, (self,), src), call_ensures(<Self::Source as WindowSource>::active_windows, (src, now), ws)]
                {
                    &&& call_ensures(Self::source, (self,), src)
                    &&& call_ensures(<Self::Source as WindowSource>::active_windows, (src, now), ws)
                    &&& r.len() == ws.len()
                    &&& forall|i: int|
                        0 <= i < ws.len() ==> call_ensures(Self::map_window, (self, ws@[i]), #[trigger] r@[i])
                },
    {
        let src = self.source();
        let windows = src.active_windows(now);
        let ghost ws = windows;
        let mut rest = windows;
        let mut r: Vec<Window<Self::Meta>> = Vec::new();
        let n = rest.len();
        while rest.len() > 0
            invariant
                n == ws.len(),
                r.len() + rest.len() == n,
                rest@ == ws@.subrange(r.len() as int, n as int),
                forall|i: int|
                    0 <= i < r.len() ==> call_ensures(Self::map_window, (self, ws@[i]), #[trigger] r@[i]),
            decreases rest.len(),
        {
            let ghost k = r.len() as int;
            let w = rest.remove(0);
            assert(w == ws@[k]);
            let m = self.map_window(w);
            r.push(m);
        }
        assert(call_ensures(Self::source, (self,), src) && call_ensures(
            <Self::Source as WindowSource>::active_windows,
            (src, now),
            ws,
        ));
        r
    }

    /// Returns the next window of the underlying source, mapped through
    /// [`Self::map_window`].
    fn map_next_window(&self, after: Timestamp) -> (r: Option<Window<Self::Meta>>)
        default_ensures
            exists|src: &Self::Source, w0: Option<Window<<Self::Source as WindowSource>::Meta>>|
                #![trigger call_ensures(Self::source, (self,), src), call_ensures(<Self::Source as WindowSource>::next_window, (src, after), w0)]
                {
                    &&& call_ensures(Self::source, (self,), src)
                    &&& call_ensures(<Self::Source as WindowSource>::next_window, (src, after), w0)
                    &&& match w0 {
                        Some(w) => r matches Some(m) && call_ensures(Self::map_window, (self, w), m),
                        None => r is None,
                    }
                },
    {
        let src = self.source();
        let next = src.next_window(after);
        let ghost w0 = next;
        let r = match next {
            Some(w) => Some(self.map_window(w)),
            None => None,
        };
        assert(call_ensures(Self::source, (self,), src) && call_ensures(
            <Self::Source as WindowSource>::next_window,
            (src, after),
            w0,
        ));
        r
    }
}

impl<T> WindowSource for T where T: DerivedWindowSource {
    type Meta = T::Meta;

    /// The source's `map_active_windows`, whose result it returns unchanged.
    fn active_windows(&self, now: Timestamp) -> (r: Vec<Window<Self::Meta>>)
        ensures
            call_ensures(T::map_active_windows, (self, now), r),
    {
        self.map_active_windows(now)
    }

    /// The source's `map_next_window`, whose result it returns unchanged.
    fn next_window(&self, after: Timestamp) -> (r: Option<Window<Self::Meta>>)
        ensures
            call_ensures(T::map_next_window, (self, after), r),
    {
        self.map_next_window(after)
    }
}

} // verus!
