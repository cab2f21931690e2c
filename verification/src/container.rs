//! Windows and containers: a window is an opaque platform handle, and a
//! container is an ordered stack of windows occupying one tiling slot.

use vstd::prelude::*;

verus! {

/// A window, identified by its opaque, platform-assigned handle.
#[derive(Clone, Copy, Debug, PartialEq, Eq, Structural)]
pub struct Window {
    pub hwnd: isize,
}

/// The mathematical value of a container.
pub ghost struct ContainerView {
    /// The stacked windows, in insertion order.
    pub windows: Seq<Window>,
    /// Which stacked window is focused.
    pub focused_window_idx: int,
}

/// An ordered group of windows sharing one tiling slot.
#[derive(Debug)]
pub struct Container {
    pub windows: Vec<Window>,
    pub focused_window_idx: usize,
}

impl View for Container {
    type V = ContainerView;

    open spec fn view(&self) -> ContainerView {
        ContainerView { windows: self.windows@, focused_window_idx: self.focused_window_idx as int }
    }
}

/// A container is well formed when it holds at least one window and its
/// focused index points at one of them.
pub open spec fn con_wf(c: ContainerView) -> bool {
    c.windows.len() > 0 && 0 <= c.focused_window_idx < c.windows.len()
}

/// Whether the container stacks a window with handle `h`.
pub open spec fn con_has_hwnd(c: ContainerView, h: isize) -> bool {
    exists|k: int| 0 <= k < c.windows.len() && c.windows[k].hwnd == h
}

/// An index clamped into `[0, len)`, or `0` when the range is empty.
pub open spec fn clamp_idx(i: int, len: int) -> int {
    if len <= 0 || i < 0 {
        0
    } else if i < len {
        i
    } else {
        len - 1
    }
}

/// The subsequence of `ws` whose handles are in `valid`, in order.
pub open spec fn wins_valid(ws: Seq<Window>, valid: Seq<isize>) -> Seq<Window>
    decreases ws.len(),
{
    if ws.len() == 0 {
        Seq::empty()
    } else {
        let prefix = wins_valid(ws.drop_last(), valid);
        if valid.contains(ws.last().hwnd) {
            prefix.push(ws.last())
        } else {
            prefix
        }
    }
}

/// The subsequence of `ws` whose handles differ from `h`, in order.
pub open spec fn wins_without(ws: Seq<Window>, h: isize) -> Seq<Window>
    decreases ws.len(),
{
    if ws.len() == 0 {
        Seq::empty()
    } else {
        let prefix = wins_without(ws.drop_last(), h);
        if ws.last().hwnd != h {
            prefix.push(ws.last())
        } else {
            prefix
        }
    }
}

/// The container after dropping windows whose handles are not in `valid`,
/// with the focused index clamped to the remaining stack.
pub open spec fn con_reap(c: ContainerView, valid: Seq<isize>) -> ContainerView {
    let kept = wins_valid(c.windows, valid);
    ContainerView {
        windows: kept,
        focused_window_idx: clamp_idx(c.focused_window_idx, kept.len() as int),
    }
}

/// The container after dropping every window with handle `h`, with the
/// focused index clamped to the remaining stack.
pub open spec fn con_without(c: ContainerView, h: isize) -> ContainerView {
    let kept = wins_without(c.windows, h);
    ContainerView {
        windows: kept,
        focused_window_idx: clamp_idx(c.focused_window_idx, kept.len() as int),
    }
}

impl Container {
    /// A new container stacking exactly the one window `w`, focused on it.
    pub fn for_window(w: Window) -> (c: Container)
        ensures
            c@.windows == seq![w],
            c@.focused_window_idx == 0,
            con_wf(c@),
    {
        let mut windows: Vec<Window> = Vec::new();
        windows.push(w);
        proof {
            assert(windows@ =~= seq![w]);
        }
        Container { windows, focused_window_idx: 0 }
    }

    /// Whether a window with handle `h` is stacked here.
    pub fn contains_window(&self, h: isize) -> (b: bool)
        ensures
            b == con_has_hwnd(self@, h),
    {
        let mut k: usize = 0;
        while k < self.windows.len()
            invariant
                k <= self.windows@.len(),
                forall|j: int| 0 <= j < k ==> self.windows@[j].hwnd != h,
            decreases self.windows@.len() - k,
        {
            if self.windows[k].hwnd == h {
                proof {
                    assert(con_has_hwnd(self@, h)) by {
                        assert(self@.windows[k as int].hwnd == h);
                    }
                }
                return true;
            }
            k = k + 1;
        }
        false
    }

    /// The position of the first window with handle `h`, if any.
    pub fn idx_of(&self, h: isize) -> (r: Option<usize>)
        ensures
            match r {
                Some(k) => 0 <= k < self.windows@.len() && self.windows@[k as int].hwnd == h
                    && forall|j: int| 0 <= j < k ==> self.windows@[j].hwnd != h,
                None => !con_has_hwnd(self@, h),
            },
    {
        let mut k: usize = 0;
        while k < self.windows.len()
            invariant
                k <= self.windows@.len(),
                forall|j: int| 0 <= j < k ==> self.windows@[j].hwnd != h,
            decreases self.windows@.len() - k,
        {
            if self.windows[k].hwnd == h {
                return Some(k);
            }
            k = k + 1;
        }
        None
    }
}

/// Keeps exactly the windows whose handles are in `valid`.
pub fn filter_valid_windows(v: &Vec<Window>, valid: &Vec<isize>) -> (r: Vec<Window>)
    ensures
        r@ == wins_valid(v@, valid@),
        r@.len() <= v@.len(),
{
    let mut out: Vec<Window> = Vec::new();
    let mut i: usize = 0;
    while i < v.len()
        invariant
            i <= v@.len(),
            out@ == wins_valid(v@.take(i as int), valid@),
            out@.len() <= i,
        decreases v@.len() - i,
    {
        proof {
            assert(v@.take(i as int + 1).drop_last() =~= v@.take(i as int));
            assert(v@.take(i as int + 1).last() == v@[i as int]);
        }
        if contains_hwnd(valid, v[i].hwnd) {
            out.push(v[i]);
        }
        i = i + 1;
    }
    proof {
        assert(v@.take(v@.len() as int) =~= v@);
    }
    out
}

/// Keeps exactly the windows whose handle differs from `h`.
pub fn filter_without_hwnd(v: &Vec<Window>, h: isize) -> (r: Vec<Window>)
    ensures
        r@ == wins_without(v@, h),
        r@.len() <= v@.len(),
{
    let mut out: Vec<Window> = Vec::new();
    let mut i: usize = 0;
    while i < v.len()
        invariant
            i <= v@.len(),
            out@ == wins_without(v@.take(i as int), h),
            out@.len() <= i,
        decreases v@.len() - i,
    {
        proof {
            assert(v@.take(i as int + 1).drop_last() =~= v@.take(i as int));
            assert(v@.take(i as int + 1).last() == v@[i as int]);
        }
        if v[i].hwnd != h {
            out.push(v[i]);
        }
        i = i + 1;
    }
    proof {
        assert(v@.take(v@.len() as int) =~= v@);
    }
    out
}

/// Whether `v` lists the handle `h`.
pub fn contains_hwnd(v: &Vec<isize>, h: isize) -> (b: bool)
    ensures
        b == v@.contains(h),
{
    let mut i: usize = 0;
    while i < v.len()
        invariant
            i <= v@.len(),
            forall|j: int| 0 <= j < i ==> v@[j] != h,
        decreases v@.len() - i,
    {
        if v[i] == h {
            return true;
        }
        i = i + 1;
    }
    false
}

/// An element of a sequence without its last entry is an element of the
/// whole sequence.
proof fn lemma_drop_last_contains(ws: Seq<Window>, x: Window)
    requires
        ws.len() > 0,
        ws.drop_last().contains(x),
    ensures
        ws.contains(x),
{
    let j = choose|j: int| 0 <= j < ws.drop_last().len() && ws.drop_last()[j] == x;
    assert(ws[j] == x);
}

/// The sequence `wins_valid` keeps is made of handles in `valid` only.
pub proof fn lemma_wins_valid_members(ws: Seq<Window>, valid: Seq<isize>)
    ensures
        forall|k: int|
            0 <= k < wins_valid(ws, valid).len() ==> valid.contains(
                #[trigger] wins_valid(ws, valid)[k].hwnd,
            ),
        forall|k: int|
            0 <= k < wins_valid(ws, valid).len() ==> ws.contains(
                #[trigger] wins_valid(ws, valid)[k],
            ),
    decreases ws.len(),
{
    if ws.len() > 0 {
        lemma_wins_valid_members(ws.drop_last(), valid);
        let out = wins_valid(ws, valid);
        let prefix = wins_valid(ws.drop_last(), valid);
        assert forall|k: int| 0 <= k < out.len() implies valid.contains(#[trigger] out[k].hwnd)
            && ws.contains(out[k]) by {
            if k < prefix.len() {
                assert(out[k] == prefix[k]);
                lemma_drop_last_contains(ws, prefix[k]);
            } else {
                assert(out[k] == ws.last());
                assert(ws.contains(ws.last()));
            }
        }
    }
}

/// The sequence `wins_without` keeps holds no window with handle `h`.
pub proof fn lemma_wins_without_members(ws: Seq<Window>, h: isize)
    ensures
        forall|k: int| 0 <= k < wins_without(ws, h).len() ==> #[trigger] wins_without(ws, h)[k].hwnd
            != h,
        forall|k: int|
            0 <= k < wins_without(ws, h).len() ==> ws.contains(#[trigger] wins_without(ws, h)[k]),
    decreases ws.len(),
{
    if ws.len() > 0 {
        lemma_wins_without_members(ws.drop_last(), h);
        let out = wins_without(ws, h);
        let prefix = wins_without(ws.drop_last(), h);
        assert forall|k: int| 0 <= k < out.len() implies #[trigger] out[k].hwnd != h && ws.contains(
            out[k],
        ) by {
            if k < prefix.len() {
                assert(out[k] == prefix[k]);
                lemma_drop_last_contains(ws, prefix[k]);
            } else {
                assert(out[k] == ws.last());
                assert(ws.contains(ws.last()));
            }
        }
    }
}

} // verus!
