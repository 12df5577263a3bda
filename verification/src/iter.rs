//! Walking forward through the windows of a source.
use vstd::prelude::*;

use crate::source::WindowSource;
use crate::time::Timestamp;
use crate::window::Window;

verus! {

/// What the walk does with the source's answer `candidate` at `cursor`: a
/// window that starts strictly after the cursor is yielded (`r`) and becomes
/// the new cursor; anything else yields `None` and keeps the cursor.
pub open spec fn advance_outcome<M>(
    cursor: Timestamp,
    candidate: Option<Window<M>>,
    r: Option<Window<M>>,
    new_cursor: Timestamp,
) -> bool {
    match candidate {
        Some(w) => if w.start@ > cursor@ {
            r == Some(w) && new_cursor == w.start
        } else {
            r is None && new_cursor == cursor
        },
        None => r is None && new_cursor == cursor,
    }
}

/// Successive upcoming windows of a [`WindowSource`], in strictly ascending
/// start order.
///
/// After yielding a window the cursor moves to that window's `start`, not its
/// `end`, so windows that start during an earlier yielded window are not
/// skipped. A window from the source that does not start strictly after the
/// cursor ends the walk, as does a source that returns `None`.
pub struct NextWindows<'a, S> where S: WindowSource {
    source: &'a S,
    cursor: Timestamp,
}

impl<'a, S> NextWindows<'a, S> where S: WindowSource {
    /// The instant after which the next window must start.
    pub closed spec fn cursor(&self) -> Timestamp {
        self.cursor
    }

    /// The source being walked.
    pub closed spec fn source(&self) -> &'a S {
        self.source
    }

    /// Creates a walk over windows starting strictly after `from`.
    pub fn new(source: &'a S, from: Timestamp) -> (r: Self)
        ensures
            r.cursor() == from,
            r.source() == source,
    {
        NextWindows { source, cursor: from }
    }

    /// The instant after which the next window must start.
    pub fn current_cursor(&self) -> (r: Timestamp)
        ensures
            r == self.cursor(),
    {
        self.cursor
    }

    /// Takes the source's answer `candidate` for the current cursor: a window
    /// that starts strictly after the cursor is yielded and becomes the new
    /// cursor; anything else ends the walk and leaves the cursor unchanged.
    pub fn advance_with(&mut self, candidate: Option<Window<S::Meta>>) -> (r: Option<
        Window<S::Meta>,
    >)
        ensures
            final(self).source() == old(self).source(),
            advance_outcome(old(self).cursor(), candidate, r, final(self).cursor()),
    {
        match candidate {
            Some(w) => {
                if w.start.unix_nanos() <= self.cursor.unix_nanos() {
                    None
                } else {
                    self.cursor = w.start;
                    Some(w)
                }
            },
            None => None,
        }
    }

    /// Returns the next window: the source's next window after the cursor, if
    /// it starts strictly after the cursor.
    pub fn next(&mut self) -> (r: Option<Window<S::Meta>>)
        ensures
            final(self).source() == old(self).source(),
            r matches Some(w) ==> w.start@ > old(self).cursor()@ && final(self).cursor() == w.start,
            r is None ==> final(self).cursor() == old(self).cursor(),
            exists|candidate: Option<Window<S::Meta>>|
                #![trigger call_ensures(S::next_window, (old(self).source(), old(self).cursor()), candidate)]
                call_ensures(S::next_window, (old(self).source(), old(self).cursor()), candidate)
                    && advance_outcome(old(self).cursor(), candidate, r, final(self).cursor()),
    {
        let candidate = self.source.next_window(self.cursor);
        let ghost c = candidate;
        let r = self.advance_with(candidate);
        assert(call_ensures(S::next_window, (old(self).source(), old(self).cursor()), c));
        r
    }
}

/// Walking helpers for every [`WindowSource`].
pub trait WindowSourceExt: WindowSource {
    /// Returns a walk over successive windows after `from`.
    fn next_windows_from(&self, from: Timestamp) -> (r: NextWindows<'_, Self>)
        where Self: Sized
        ensures
            r.cursor() == from,
            r.source() == self,
    {
        NextWindows::new(self, from)
    }
}

impl<T: WindowSource> WindowSourceExt for T {}

/// Windows yielded one after the other by a walk start strictly later each
/// time: yielding `first` moves the cursor to `first.start`, and the next
/// window yielded starts strictly after the cursor.
pub proof fn lemma_walk_starts_increase<M>(first: Window<M>, cursor: Timestamp, second: Window<M>)
    requires
        cursor == first.start,
        second.start@ > cursor@,
    ensures
        second.start@ > first.start@,
{
}

/// Over any number of calls, a walk yields windows whose starts ascend
/// strictly from `from` on, none twice: `ws[i]` is the window of call `i`,
/// asked with cursor `cursors[i]`; each yielded window starts strictly after
/// its cursor, the first cursor is `from`, and each later cursor is the start
/// of the window yielded before it.
pub proof fn lemma_walk_ascends<M>(from: Timestamp, ws: Seq<Window<M>>, cursors: Seq<Timestamp>)
    requires
        cursors.len() == ws.len(),
        ws.len() > 0 ==> cursors[0] == from,
        forall|i: int| 0 <= i < ws.len() ==> (#[trigger] ws[i]).start@ > cursors[i]@,
        forall|i: int| 0 < i < ws.len() ==> #[trigger] cursors[i] == ws[i - 1].start,
    ensures
        forall|i: int| 0 <= i < ws.len() ==> (#[trigger] ws[i]).start@ > from@,
        forall|i: int, j: int|
            0 <= i < j < ws.len() ==> (#[trigger] ws[i]).start@ < (#[trigger] ws[j]).start@,
    decreases ws.len(),
{
    if ws.len() > 0 {
        let n = ws.len() - 1;
        let ws0 = ws.drop_last();
        let cs0 = cursors.drop_last();
        assert forall|i: int| 0 <= i < ws0.len() implies (#[trigger] ws0[i]).start@ > cs0[i]@ by {
            assert(ws0[i] == ws[i] && cs0[i] == cursors[i]);
        }
        assert forall|i: int| 0 < i < ws0.len() implies #[trigger] cs0[i] == ws0[i - 1].start by {
            assert(cs0[i] == cursors[i] && ws0[i - 1] == ws[i - 1]);
        }
        lemma_walk_ascends(from, ws0, cs0);
        assert forall|i: int| 0 <= i < ws.len() implies (#[trigger] ws[i]).start@ > from@ by {
            if i < n {
                assert(ws0[i] == ws[i]);
            } else if n > 0 {
                assert(ws0[n - 1] == ws[n - 1]);
                assert(ws[n].start@ > cursors[n]@);
            }
        }
        assert forall|i: int, j: int| 0 <= i < j < ws.len() implies (#[trigger] ws[i]).start@ < (
        #[trigger] ws[j]).start@ by {
            assert(ws0[i] == ws[i]);
            if j < n {
                assert(ws0[j] == ws[j]);
                assert(ws0[i].start@ < ws0[j].start@);
            } else {
                assert(ws[n].start@ > cursors[n]@);
                assert(cursors[n] == ws[n - 1].start);
                if i < n - 1 {
                    assert(ws0[n - 1] == ws[n - 1]);
                    assert(ws0[i].start@ < ws0[n - 1].start@);
                }
            }
        }
    }
}

} // verus!
