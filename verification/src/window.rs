//! Window-level control requests (`tabs.new`, `tabs.close`) waiting for the
//! next frame, and how a close follows its tab when the tabs move.
use vstd::prelude::*;
use crate::deferred::reverse_vec;

verus! {

/// A window-level control request waiting for the next frame: open a tab,
/// or close the tab at `tab_idx` (checked again when it runs).
#[derive(Debug, Clone, PartialEq, Eq)]
pub enum WindowRequest<W> {
    NewTab(W),
    CloseTab { tab_idx: usize, request: W },
}

/// A window request after the tabs moved (`map[i]` is the new index of the
/// tab that was at `i`): a close follows its tab; an index the map does not
/// cover stays as it is.
pub open spec fn remap_window_request<W>(r: WindowRequest<W>, map: Seq<usize>) -> WindowRequest<W> {
    match r {
        WindowRequest::NewTab(w) => WindowRequest::NewTab(w),
        WindowRequest::CloseTab { tab_idx, request } => WindowRequest::CloseTab {
            tab_idx: if tab_idx < map.len() { map[tab_idx as int] } else { tab_idx },
            request,
        },
    }
}

/// The window requests after the tabs moved, in the same order.
pub open spec fn remapped_window<W>(s: Seq<WindowRequest<W>>, map: Seq<usize>) -> Seq<WindowRequest<W>> {
    s.map_values(|r: WindowRequest<W>| remap_window_request(r, map))
}

/// The window requests waiting, in arrival order.
pub struct PendingWindowRequests<W> {
    items: Vec<WindowRequest<W>>,
}

impl<W> View for PendingWindowRequests<W> {
    type V = Seq<WindowRequest<W>>;

    closed spec fn view(&self) -> Seq<WindowRequest<W>> {
        self.items@
    }
}

impl<W> PendingWindowRequests<W> {
    /// No requests.
    pub fn new() -> (r: PendingWindowRequests<W>)
        ensures
            r@ == Seq::<WindowRequest<W>>::empty(),
    {
        PendingWindowRequests { items: Vec::new() }
    }

    /// Queue a request.
    pub fn push(&mut self, request: WindowRequest<W>)
        ensures
            final(self)@ == old(self)@.push(request),
    {
        self.items.push(request);
    }

    /// Take every request out, in arrival order.
    pub fn take_all(&mut self) -> (r: Vec<WindowRequest<W>>)
        ensures
            r@ == old(self)@,
            final(self)@ == Seq::<WindowRequest<W>>::empty(),
    {
        let mut taken: Vec<WindowRequest<W>> = Vec::new();
        std::mem::swap(&mut taken, &mut self.items);
        taken
    }

    /// Follow a reordering of the tabs (see [`remapped_window`]).
    pub fn remap_after_reorder(&mut self, map: &Vec<usize>)
        ensures
            final(self)@ == remapped_window(old(self)@, map@),
    {
        let mut all: Vec<WindowRequest<W>> = Vec::new();
        std::mem::swap(&mut all, &mut self.items);
        let ghost orig = all@;
        let n = all.len();
        let mut rev = reverse_vec(all);
        let mut out: Vec<WindowRequest<W>> = Vec::new();
        while rev.len() > 0
            invariant
                rev@.len() + out@.len() == n,
                n == orig.len(),
                rev@ == orig.subrange(out@.len() as int, n as int).reverse(),
                out@ == remapped_window(orig.take(out@.len() as int), map@),
            decreases rev@.len(),
        {
            let ghost k = out@.len() as int;
            let x = rev.pop().unwrap();
            proof {
                assert(x == orig[k]);
                assert(rev@ =~= orig.subrange(k + 1, n as int).reverse());
            }
            let y = match x {
                WindowRequest::NewTab(w) => WindowRequest::NewTab(w),
                WindowRequest::CloseTab { tab_idx, request } => {
                    let t = if tab_idx < map.len() {
                        map[tab_idx]
                    } else {
                        tab_idx
                    };
                    WindowRequest::CloseTab { tab_idx: t, request }
                },
            };
            out.push(y);
            proof {
                assert(orig.take(k + 1) =~= orig.take(k).push(orig[k]));
                assert(out@ =~= remapped_window(orig.take(k + 1), map@));
            }
        }
        assert(orig.take(n as int) =~= orig);
        self.items = out;
    }
}

} // verus!
