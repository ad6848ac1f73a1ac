//! Windows and their manager: each window views one buffer through its own
//! cursor set, placement rectangle, and scroll offsets.
use vstd::prelude::*;

use crate::buffer::BufferId;
use crate::cursor::CursorSet;

verus! {

/// The window heights added up, in rows.
pub open spec fn heights_sum(s: Seq<Window>) -> int
    decreases s.len(),
{
    if s.len() == 0 {
        0
    } else {
        heights_sum(s.drop_last()) + s.last().height as int
    }
}

/// The rows available to windows: the frame height less the echo line.
pub open spec fn usable_height(h: u16) -> int {
    if h > 0 {
        h - 1
    } else {
        0
    }
}

/// Identity of a window, unique within its manager.
#[derive(Debug, Clone, Copy, PartialEq, Eq, Structural, Hash)]
pub struct WindowId(pub u64);

impl WindowId {
    pub fn new(raw: u64) -> (r: WindowId)
        ensures
            r.0 == raw,
    {
        WindowId(raw)
    }
}

/// One window: which buffer it shows, its cursors, its placement, and how far
/// it is scrolled.
#[derive(Debug)]
pub struct Window {
    pub id: WindowId,
    pub buffer_id: BufferId,
    pub cursors: CursorSet,
    pub x: u16,
    pub y: u16,
    pub width: u16,
    pub height: u16,
    pub scroll_line: usize,
    pub scroll_column: usize,
}

impl Window {
    pub fn new(id: WindowId, buffer_id: BufferId) -> (r: Window)
        ensures
            r.id == id,
            r.buffer_id == buffer_id,
            r.cursors.primary == crate::cursor::Cursor::spec_default(),
            r.cursors.secondary@.len() == 0,
            r.x == 0 && r.y == 0 && r.width == 80 && r.height == 24,
            r.scroll_line == 0 && r.scroll_column == 0,
    {
        Window {
            id,
            buffer_id,
            cursors: CursorSet::new(),
            x: 0,
            y: 0,
            width: 80,
            height: 24,
            scroll_line: 0,
            scroll_column: 0,
        }
    }

    pub fn with_dimensions(id: WindowId, buffer_id: BufferId, x: u16, y: u16, width: u16, height: u16) -> (r: Window)
        ensures
            r.id == id,
            r.buffer_id == buffer_id,
            r.cursors.primary == crate::cursor::Cursor::spec_default(),
            r.cursors.secondary@.len() == 0,
            r.x == x && r.y == y && r.width == width && r.height == height,
            r.scroll_line == 0 && r.scroll_column == 0,
    {
        Window { id, buffer_id, cursors: CursorSet::new(), x, y, width, height, scroll_line: 0, scroll_column: 0 }
    }
}

/// The windows of the frame, stacked top to bottom, with the index of the
/// selected one.
#[derive(Debug)]
pub struct WindowManager {
    pub windows: Vec<Window>,
    pub current: usize,
    pub total_width: u16,
    pub total_height: u16,
    pub next_id: u64,
}

impl WindowManager {
    /// The windows, top to bottom.
    pub open spec fn windows_seq(self) -> Seq<Window> {
        self.windows@
    }

    pub open spec fn dims(self) -> (u16, u16) {
        (self.total_width, self.total_height)
    }

    /// The selected window exists whenever any window does; with no windows
    /// the selection rests at the start.
    pub open spec fn wf(self) -> bool {
        &&& (self.windows_seq().len() > 0 ==> self.current < self.windows_seq().len())
        &&& (self.windows_seq().len() == 0 ==> self.current == 0)
    }

    pub fn new() -> (r: WindowManager)
        ensures
            r.windows_seq().len() == 0,
            r.current == 0,
            r.dims() == (80u16, 24u16),
            r.wf(),
    {
        WindowManager { windows: Vec::new(), current: 0, total_width: 80, total_height: 24, next_id: 1 }
    }

    pub fn with_dimensions(width: u16, height: u16) -> (r: WindowManager)
        ensures
            r.windows_seq().len() == 0,
            r.current == 0,
            r.dims() == (width, height),
            r.wf(),
    {
        WindowManager { windows: Vec::new(), current: 0, total_width: width, total_height: height, next_id: 1 }
    }

    /// Resize the frame and lay the windows out again.
    pub fn set_dimensions(&mut self, width: u16, height: u16)
        requires
            old(self).wf(),
        ensures
            final(self).wf(),
            final(self).dims() == (width, height),
            final(self).windows_seq().len() == old(self).windows_seq().len(),
            final(self).current == old(self).current,
            forall|i: int|
                0 <= i < old(self).windows_seq().len() ==> (#[trigger] final(self).windows_seq()[i]).buffer_id == old(self).windows_seq()[i].buffer_id && final(self).windows_seq()[i].cursors == old(self).windows_seq()[i].cursors && final(self).windows_seq()[i].id == old(self).windows_seq()[i].id,
    {
        self.total_width = width;
        self.total_height = height;
        self.relayout();
    }

    /// Open a new full-width window on `buffer_id` and lay everything out.
    /// Returns the new window's identity.
    pub fn add(&mut self, buffer_id: BufferId) -> (r: WindowId)
        requires
            old(self).wf(),
        ensures
            final(self).wf(),
            final(self).windows_seq().len() == old(self).windows_seq().len() + 1,
            final(self).windows_seq().last().buffer_id == buffer_id,
            final(self).windows_seq().last().id == r,
            final(self).current == old(self).current,
            final(self).dims() == old(self).dims(),
            forall|i: int|
                0 <= i < old(self).windows_seq().len() ==> (#[trigger] final(self).windows_seq()[i]).buffer_id == old(self).windows_seq()[i].buffer_id && final(self).windows_seq()[i].cursors == old(self).windows_seq()[i].cursors,
    {
        let id = WindowId(self.next_id);
        if self.next_id < u64::MAX {
            self.next_id = self.next_id + 1;
        }
        let h = if self.total_height > 0 {
            self.total_height - 1
        } else {
            0
        };
        let window = Window::with_dimensions(id, buffer_id, 0, 0, self.total_width, h);
        self.windows.push(window);
        self.relayout();
        id
    }

    /// The selected window, if any window exists.
    pub fn current(&self) -> (r: Option<&Window>)
        ensures
            match r {
                Some(w) => self.windows_seq().len() > 0 && self.current < self.windows_seq().len()
                    && *w == self.windows_seq()[self.current as int],
                None => self.windows_seq().len() == 0 || self.current >= self.windows_seq().len(),
            },
    {
        if self.current < self.windows.len() {
            Some(&self.windows[self.current])
        } else {
            None
        }
    }

    /// The buffer the selected window shows.
    pub fn current_buffer_id(&self) -> (r: Option<BufferId>)
        ensures
            match r {
                Some(b) => self.windows_seq().len() > 0 && self.current < self.windows_seq().len()
                    && b == self.windows_seq()[self.current as int].buffer_id,
                None => self.windows_seq().len() == 0 || self.current >= self.windows_seq().len(),
            },
    {
        match self.current() {
            Some(w) => Some(w.buffer_id),
            None => None,
        }
    }

    /// A copy of the selected window's cursors.
    pub fn current_cursors(&self) -> (r: Option<CursorSet>)
        ensures
            match r {
                Some(cs) => self.windows_seq().len() > 0 && self.current < self.windows_seq().len()
                    && cs.all_seq() == self.windows_seq()[self.current as int].cursors.all_seq(),
                None => self.windows_seq().len() == 0 || self.current >= self.windows_seq().len(),
            },
    {
        if self.current < self.windows.len() {
            let cs = self.windows[self.current].cursors.clone();
            proof {
                assert(cs.all_seq() =~= self.windows@[self.current as int].cursors.all_seq());
            }
            Some(cs)
        } else {
            None
        }
    }

    /// Replace the selected window's cursors.
    pub fn put_current_cursors(&mut self, cursors: CursorSet)
        ensures
            final(self).windows_seq().len() == old(self).windows_seq().len(),
            final(self).current == old(self).current,
            final(self).dims() == old(self).dims(),
            old(self).wf() ==> final(self).wf(),
            old(self).current < old(self).windows_seq().len() ==> {
                &&& final(self).windows_seq() == old(self).windows_seq().update(
                    old(self).current as int,
                    Window { cursors: final(self).windows_seq()[old(self).current as int].cursors, ..old(self).windows_seq()[old(self).current as int] },
                )
                &&& final(self).windows_seq()[old(self).current as int].cursors == cursors
            },
            old(self).current >= old(self).windows_seq().len() ==> final(self).windows_seq() == old(self).windows_seq(),
    {
        if self.current < self.windows.len() {
            self.windows[self.current].cursors = cursors;
            proof {
                assert(self.windows@ =~= old(self).windows@.update(
                    old(self).current as int,
                    Window {
                        cursors: self.windows@[old(self).current as int].cursors,
                        ..old(self).windows@[old(self).current as int]
                    },
                ));
            }
        }
    }

    /// Scroll the selected window to `line`.
    pub fn set_current_scroll_line(&mut self, line: usize)
        ensures
            final(self).windows_seq().len() == old(self).windows_seq().len(),
            final(self).current == old(self).current,
            final(self).dims() == old(self).dims(),
            old(self).wf() ==> final(self).wf(),
            old(self).current < old(self).windows_seq().len() ==> final(self).windows_seq() == old(self).windows_seq().update(
                old(self).current as int,
                Window { scroll_line: line, ..old(self).windows_seq()[old(self).current as int] },
            ),
            old(self).current >= old(self).windows_seq().len() ==> final(self).windows_seq() == old(self).windows_seq(),
    {
        if self.current < self.windows.len() {
            self.windows[self.current].scroll_line = line;
            proof {
                assert(self.windows@ =~= old(self).windows@.update(
                    old(self).current as int,
                    Window {
                        scroll_line: line,
                        ..old(self).windows@[old(self).current as int]
                    },
                ));
            }
        }
    }

    /// Point the selected window at `buffer_id` and scroll it home.
    pub fn set_current_buffer(&mut self, buffer_id: BufferId)
        ensures
            final(self).windows_seq().len() == old(self).windows_seq().len(),
            final(self).current == old(self).current,
            final(self).dims() == old(self).dims(),
            old(self).wf() ==> final(self).wf(),
            old(self).current < old(self).windows_seq().len() ==> final(self).windows_seq() == old(self).windows_seq().update(
                old(self).current as int,
                Window {
                    buffer_id,
                    scroll_line: 0,
                    scroll_column: 0,
                    ..old(self).windows_seq()[old(self).current as int]
                },
            ),
            old(self).current >= old(self).windows_seq().len() ==> final(self).windows_seq() == old(self).windows_seq(),
    {
        if self.current < self.windows.len() {
            self.windows[self.current].buffer_id = buffer_id;
            self.windows[self.current].scroll_line = 0;
            self.windows[self.current].scroll_column = 0;
            proof {
                assert(self.windows@ =~= old(self).windows@.update(
                    old(self).current as int,
                    Window {
                        buffer_id,
                        scroll_line: 0,
                        scroll_column: 0,
                        ..old(self).windows@[old(self).current as int]
                    },
                ));
            }
        }
    }

    /// Select the next window, wrapping at the end.
    pub fn cycle_next(&mut self)
        requires
            old(self).wf(),
        ensures
            final(self).wf(),
            final(self).windows_seq() == old(self).windows_seq(),
            final(self).dims() == old(self).dims(),
            old(self).windows_seq().len() == 0 ==> final(self).current == old(self).current,
            old(self).windows_seq().len() > 0 ==> final(self).current == (old(self).current + 1) % (
            old(self).windows_seq().len() as int),
    {
        if self.windows.len() > 0 {
            self.current = (self.current + 1) % self.windows.len();
        }
    }

    /// Select the previous window, wrapping at the start.
    pub fn cycle_prev(&mut self)
        requires
            old(self).wf(),
        ensures
            final(self).wf(),
            final(self).windows_seq() == old(self).windows_seq(),
            final(self).dims() == old(self).dims(),
            old(self).windows_seq().len() == 0 ==> final(self).current == old(self).current,
            old(self).windows_seq().len() > 0 ==> final(self).current == if old(self).current == 0 {
                old(self).windows_seq().len() - 1
            } else {
                old(self).current - 1
            },
    {
        if self.windows.len() > 0 {
            if self.current == 0 {
                self.current = self.windows.len() - 1;
            } else {
                self.current = self.current - 1;
            }
        }
    }

    /// Split the selected window in two stacked halves; the new window sits
    /// just below it, showing the same buffer.
    pub fn split_vertical(&mut self)
        requires
            old(self).wf(),
        ensures
            final(self).wf(),
            final(self).dims() == old(self).dims(),
            final(self).current == old(self).current,
            old(self).windows_seq().len() == 0 ==> final(self).windows_seq() == old(self).windows_seq(),
            old(self).windows_seq().len() > 0 ==> ({
                let c = old(self).current as int;
                let n = old(self).windows_seq().len() as int;
                &&& final(self).windows_seq().len() == n + 1
                &&& final(self).windows_seq()[c + 1].buffer_id == old(self).windows_seq()[c].buffer_id
                &&& forall|i: int|
                    0 <= i <= c ==> (#[trigger] final(self).windows_seq()[i]).buffer_id == old(self).windows_seq()[i].buffer_id && final(self).windows_seq()[i].cursors == old(self).windows_seq()[i].cursors
                &&& forall|i: int|
                    c + 1 < i < n + 1 ==> (#[trigger] final(self).windows_seq()[i]).buffer_id
                        == old(self).windows_seq()[i - 1].buffer_id && final(self).windows_seq()[i].cursors == old(self).windows_seq()[i - 1].cursors
                &&& forall|i: int|
                    0 <= i < n + 1 ==> (#[trigger] final(self).windows_seq()[i]).x == 0 && final(self).windows_seq()[i].width == old(self).dims().0
                &&& (n + 1 <= u16::MAX ==> heights_sum(final(self).windows_seq())
                    == usable_height(old(self).dims().1))
            }),
    {
        if self.current >= self.windows.len() {
            return ;
        }
        let cur_buffer = self.windows[self.current].buffer_id;
        let cur_x = self.windows[self.current].x;
        let cur_y = self.windows[self.current].y;
        let cur_w = self.windows[self.current].width;
        let cur_h = self.windows[self.current].height;
        let half = cur_h / 2;
        let id = WindowId(self.next_id);
        if self.next_id < u64::MAX {
            self.next_id = self.next_id + 1;
        }
        let new_window = Window::with_dimensions(
            id,
            cur_buffer,
            cur_x,
            if cur_y <= u16::MAX - half {
                cur_y + half
            } else {
                u16::MAX
            },
            cur_w,
            cur_h - half,
        );
        self.windows[self.current].height = half;
        let at = if self.current < usize::MAX {
            self.current + 1
        } else {
            self.current
        };
        let at = if at <= self.windows.len() {
            at
        } else {
            self.windows.len()
        };
        let ghost upd = self.windows@;
        self.windows.insert(at, new_window);
        proof {
            upd.insert_ensures(at as int, new_window);
            assert(at == old(self).current + 1);
            assert(forall|i: int|
                0 <= i <= old(self).current ==> #[trigger] upd[i].buffer_id == old(self).windows@[i].buffer_id && upd[i].cursors == old(self).windows@[i].cursors);
            assert(self.windows@[old(self).current as int + 1] == new_window);
            assert(forall|i: int|
                0 <= i <= old(self).current ==> #[trigger] self.windows@[i] == upd[i]);
            assert(forall|i: int|
                old(self).current + 1 < i < self.windows@.len() ==> #[trigger] self.windows@[i]
                    == upd[i - 1]);
        }
        self.relayout();
    }

    /// Split the selected window into two side-by-side halves.
    pub fn split_horizontal(&mut self)
        requires
            old(self).wf(),
        ensures
            final(self).wf(),
            final(self).dims() == old(self).dims(),
            final(self).current == old(self).current,
            old(self).windows_seq().len() == 0 ==> final(self).windows_seq() == old(self).windows_seq(),
            old(self).windows_seq().len() > 0 ==> ({
                let c = old(self).current as int;
                let n = old(self).windows_seq().len() as int;
                &&& final(self).windows_seq().len() == n + 1
                &&& final(self).windows_seq()[c + 1].buffer_id == old(self).windows_seq()[c].buffer_id
                &&& forall|i: int|
                    0 <= i <= c ==> (#[trigger] final(self).windows_seq()[i]).buffer_id == old(self).windows_seq()[i].buffer_id && final(self).windows_seq()[i].cursors == old(self).windows_seq()[i].cursors
                &&& forall|i: int|
                    c + 1 < i < n + 1 ==> (#[trigger] final(self).windows_seq()[i]).buffer_id
                        == old(self).windows_seq()[i - 1].buffer_id && final(self).windows_seq()[i].cursors == old(self).windows_seq()[i - 1].cursors
            }),
    {
        if self.current >= self.windows.len() {
            return ;
        }
        let cur_buffer = self.windows[self.current].buffer_id;
        let cur_x = self.windows[self.current].x;
        let cur_y = self.windows[self.current].y;
        let cur_w = self.windows[self.current].width;
        let cur_h = self.windows[self.current].height;
        let half = cur_w / 2;
        let id = WindowId(self.next_id);
        if self.next_id < u64::MAX {
            self.next_id = self.next_id + 1;
        }
        let new_window = Window::with_dimensions(
            id,
            cur_buffer,
            if cur_x <= u16::MAX - half {
                cur_x + half
            } else {
                u16::MAX
            },
            cur_y,
            cur_w - half,
            cur_h,
        );
        self.windows[self.current].width = half;
        let at = if self.current < usize::MAX {
            self.current + 1
        } else {
            self.current
        };
        let at = if at <= self.windows.len() {
            at
        } else {
            self.windows.len()
        };
        let ghost upd = self.windows@;
        self.windows.insert(at, new_window);
        proof {
            upd.insert_ensures(at as int, new_window);
        }
    }

    /// Close the selected window; the last window never closes.
    pub fn delete_current(&mut self)
        requires
            old(self).wf(),
        ensures
            final(self).wf(),
            final(self).dims() == old(self).dims(),
            old(self).windows_seq().len() <= 1 ==> final(self).windows_seq() == old(self).windows_seq(),
            old(self).windows_seq().len() > 1 ==> final(self).windows_seq().len() == old(self).windows_seq().len() - 1,
    {
        if self.windows.len() > 1 && self.current < self.windows.len() {
            let _ = self.windows.remove(self.current);
            if self.current >= self.windows.len() {
                self.current = self.windows.len() - 1;
            }
            self.relayout();
        }
    }

    /// Close every window but the selected one.
    pub fn delete_others(&mut self)
        requires
            old(self).wf(),
        ensures
            final(self).wf(),
            final(self).dims() == old(self).dims(),
            old(self).windows_seq().len() == 0 ==> final(self).windows_seq() == old(self).windows_seq(),
            old(self).windows_seq().len() > 0 ==> final(self).windows_seq().len() == 1 && final(self).windows_seq()[0].buffer_id == old(self).windows_seq()[old(self).current as int].buffer_id
                && final(self).current == 0,
    {
        if self.current < self.windows.len() {
            let mut keep: Vec<Window> = Vec::new();
            let mut taken = self.windows.remove(self.current);
            keep.push(taken);
            self.windows = keep;
            self.current = 0;
            self.relayout();
        }
    }

    /// How many windows are open.
    pub fn count(&self) -> (r: usize)
        ensures
            r == self.windows_seq().len(),
    {
        self.windows.len()
    }

    /// The windows, top to bottom.
    pub fn iter(&self) -> (r: &Vec<Window>)
        ensures
            r@ == self.windows_seq(),
    {
        &self.windows
    }

    /// Stack the windows top to bottom over the full frame width, dividing
    /// the height evenly and giving the remainder to the topmost windows.
    #[verifier::loop_isolation(false)]
    fn relayout(&mut self)
        ensures
            final(self).windows_seq().len() == old(self).windows_seq().len(),
            final(self).current == old(self).current,
            final(self).dims() == old(self).dims(),
            forall|i: int|
                0 <= i < old(self).windows_seq().len() ==> (#[trigger] final(self).windows_seq()[i]).buffer_id == old(self).windows_seq()[i].buffer_id && final(self).windows_seq()[i].cursors == old(self).windows_seq()[i].cursors && final(self).windows_seq()[i].id == old(self).windows_seq()[i].id && final(self).windows_seq()[i].scroll_line == old(self).windows_seq()[i].scroll_line,
            old(self).windows_seq().len() > 0 ==> forall|i: int|
                0 <= i < old(self).windows_seq().len() ==> (#[trigger] final(self).windows_seq()[i]).x == 0 && final(self).windows_seq()[i].width == old(self).dims().0,
            0 < old(self).windows_seq().len() <= u16::MAX ==> heights_sum(final(self).windows_seq())
                == usable_height(old(self).dims().1),
    {
        let n = self.windows.len();
        if n == 0 {
            return ;
        }
        let usable: u16 = if self.total_height > 0 {
            self.total_height - 1
        } else {
            0
        };
        let n16: u16 = if n <= u16::MAX as usize {
            n as u16
        } else {
            u16::MAX
        };
        let base = usable / n16;
        let remainder = usable % n16;
        proof {
            vstd::arithmetic::div_mod::lemma_mod_bound(usable as int, n16 as int);
            if remainder >= 1 {
                assert(n16 >= 2);
                vstd::arithmetic::div_mod::lemma_div_is_ordered_by_denominator(
                    usable as int,
                    2,
                    n16 as int,
                );
                vstd::arithmetic::div_mod::lemma_div_is_ordered(
                    usable as int,
                    u16::MAX as int,
                    2,
                );
                assert(base < u16::MAX);
            }
        }
        let ghost orig = self.windows@;
        let mut y: u16 = 0;
        let mut i: usize = 0;
        proof {
            assert(self.windows@.take(0) =~= Seq::<Window>::empty());
        }
        while i < n
            invariant
                i <= n,
                n == self.windows@.len(),
                self.windows@.len() == orig.len(),
                self.current == old(self).current,
                self.total_width == old(self).total_width,
                self.total_height == old(self).total_height,
                forall|j: int| i <= j < orig.len() ==> #[trigger] self.windows@[j] == orig[j],
                forall|j: int|
                    0 <= j < i ==> (#[trigger] self.windows@[j]).buffer_id == orig[j].buffer_id
                        && self.windows@[j].cursors == orig[j].cursors && self.windows@[j].id
                        == orig[j].id && self.windows@[j].scroll_line == orig[j].scroll_line,
                forall|j: int|
                    0 <= j < i ==> (#[trigger] self.windows@[j]).x == 0 && self.windows@[j].width
                        == old(self).total_width,
                n <= u16::MAX ==> heights_sum(self.windows@.take(i as int)) == base as int
                    * i as int + (if i as int <= remainder as int {
                    i as int
                } else {
                    remainder as int
                }),
            decreases n - i,
        {
            let ghost pre_windows = self.windows@;
            let ghost pre_sum = heights_sum(self.windows@.take(i as int));
            let extra: u16 = if (i as u64) < (remainder as u64) {
                1
            } else {
                0
            };
            proof {
                if (i as u64) < (remainder as u64) {
                    assert(base <= u16::MAX - extra);
                }
            }
            let h: u16 = if base <= u16::MAX - extra {
                base + extra
            } else {
                u16::MAX
            };
            self.windows[i].x = 0;
            self.windows[i].y = y;
            self.windows[i].width = self.total_width;
            self.windows[i].height = h;
            proof {
                if n <= u16::MAX {
                    assert(self.windows@.take(i as int + 1).drop_last() =~= self.windows@.take(
                        i as int,
                    ));
                    assert(self.windows@.take(i as int) =~= pre_windows.take(i as int));
                    assert(heights_sum(self.windows@.take(i as int)) == pre_sum);
                    assert(self.windows@.take(i as int + 1).last() == self.windows@[i as int]);
                    assert(base as int * (i as int + 1) == base as int * i as int + base as int)
                        by (nonlinear_arith);
                }
            }
            y = if y <= u16::MAX - h {
                y + h
            } else {
                u16::MAX
            };
            i += 1;
        }
        proof {
            assert(self.windows@.take(n as int) =~= self.windows@);
            if 0 < n <= u16::MAX {
                vstd::arithmetic::div_mod::lemma_fundamental_div_mod(usable as int, n16 as int);
                assert(base as int * n as int == n16 as int * (usable as int / n16 as int))
                    by (nonlinear_arith)
                    requires
                        base as int == usable as int / n16 as int,
                        n16 as int == n as int,
                ;
            }
        }
    }
}

} // verus!
