//! The document tab strip's model: one [`Tab`] per open document, and the
//! browser-style drag-to-reorder bookkeeping ([`Reorder`] and
//! [`reorder_slice`]) a host drives from the strip's press and hover reports.
use vstd::prelude::*;
use crate::text::join;

verus! {

/// One tab's display state: its `label` and whether the document is `dirty`
/// (unsaved). A dirty tab is marked with a leading dot.
pub struct Tab {
    /// The tab's visible name (e.g. a file name or "untitled").
    pub label: String,
    /// Whether the underlying document has unsaved changes.
    pub dirty: bool,
}

impl Tab {
    /// A clean tab with the given label.
    pub fn new(label: &str) -> (r: Self)
        ensures
            r.label@ == label@,
            !r.dirty,
    {
        Tab { label: label.to_owned(), dirty: false }
    }

    /// Mark this tab dirty (unsaved changes) or clean.
    pub fn dirty(self, dirty: bool) -> (r: Self)
        ensures
            r.label == self.label,
            r.dirty == dirty,
    {
        Tab { label: self.label, dirty }
    }

    /// The text the strip shows: the label, after a `● ` marker when dirty.
    pub fn display_label(&self) -> (r: String)
        ensures
            r@ == if self.dirty {
                "● "@ + self.label@
            } else {
                self.label@
            },
    {
        if self.dirty {
            join("● ", self.label.as_str())
        } else {
            self.label.clone()
        }
    }
}

/// Tracks a drag-to-reorder gesture across a tab strip: press a tab to arm
/// the drag, and as the pointer crosses other tabs the dragged tab follows.
/// The host arms it from the strip's press report, feeds it the hovered index,
/// and applies each returned move to its own collection with
/// [`reorder_slice`].
#[derive(Clone, Copy, Debug, PartialEq, Eq, Structural)]
pub struct Reorder {
    anchor: Option<usize>,
}

impl Default for Reorder {
    /// No drag armed.
    fn default() -> (r: Self)
        ensures
            r.anchor_view() == None::<usize>,
    {
        Reorder { anchor: None }
    }
}

impl Reorder {
    /// The tab index the drag currently sits on, if armed.
    pub closed spec fn anchor_view(&self) -> Option<usize> {
        self.anchor
    }

    /// Arm a drag on the pressed tab `index`.
    pub fn begin(&mut self, index: usize)
        ensures
            final(self).anchor_view() == Some(index),
    {
        self.anchor = Some(index);
    }

    /// Whether a drag is currently armed.
    pub fn is_active(&self) -> (r: bool)
        ensures
            r == (self.anchor_view() is Some),
    {
        self.anchor.is_some()
    }

    /// The tab index the drag currently sits on, if armed.
    pub fn anchor(&self) -> (r: Option<usize>)
        ensures
            r == self.anchor_view(),
    {
        self.anchor
    }

    /// While dragging, the pointer entered tab `target`. Returns the
    /// `(from, to)` move the host should apply and advances the anchor to
    /// `target`; `None` (and no change) if no drag is armed or the target is
    /// already the anchor.
    pub fn drag_to(&mut self, target: usize) -> (r: Option<(usize, usize)>)
        ensures
            match old(self).anchor_view() {
                None => r == None::<(usize, usize)> && final(self).anchor_view() == old(
                    self,
                ).anchor_view(),
                Some(from) => if from == target {
                    r == None::<(usize, usize)> && final(self).anchor_view() == old(
                        self,
                    ).anchor_view()
                } else {
                    r == Some((from, target)) && final(self).anchor_view() == Some(target)
                },
            },
    {
        match self.anchor {
            None => None,
            Some(from) => {
                if from == target {
                    None
                } else {
                    self.anchor = Some(target);
                    Some((from, target))
                }
            },
        }
    }

    /// Clear the drag on pointer release, returning the final anchor (where
    /// the tab ended up) if a drag was armed.
    pub fn end(&mut self) -> (r: Option<usize>)
        ensures
            r == old(self).anchor_view(),
            final(self).anchor_view() == None::<usize>,
    {
        let r = self.anchor;
        self.anchor = None;
        r
    }
}

/// `s` with the element at `from` moved to position `to`, the elements in
/// between shifted over by one.
pub open spec fn moved<T>(s: Seq<T>, from: int, to: int) -> Seq<T> {
    s.remove(from).insert(to, s[from])
}

/// `<[T]>::swap`: exchanges the elements at `a` and `b`. std panics when
/// either index is out of bounds; `requires` excludes that.
#[verifier::external_body]
fn swap_items<T>(items: &mut [T], a: usize, b: usize)
    requires
        a < old(items)@.len(),
        b < old(items)@.len(),
    ensures
        final(items)@ == old(items)@.update(a as int, old(items)@[b as int]).update(
            b as int,
            old(items)@[a as int],
        ),
{
    items.swap(a, b)
}

/// Move the element at `from` to `to`, shifting the elements in between —
/// the list mutation behind a browser-style tab reorder. Allocation-free (a
/// run of adjacent swaps). No-op if either index is out of range or they are
/// equal.
pub fn reorder_slice<T>(items: &mut [T], from: usize, to: usize)
    ensures
        if from < old(items)@.len() && to < old(items)@.len() && from != to {
            final(items)@ == moved(old(items)@, from as int, to as int)
        } else {
            final(items)@ == old(items)@
        },
{
    let n = items.len();
    if from >= n || to >= n || from == to {
        return;
    }
    let ghost s = items@;
    if from < to {
        let mut i = from;
        while i < to
            invariant
                from <= i <= to < n,
                n == items@.len(),
                s.len() == n,
                items@ == s.subrange(0, from as int) + s.subrange(from + 1, i + 1) + seq![
                    s[from as int],
                ] + s.subrange(i + 1, n as int),
            decreases to - i,
        {
            let ghost before = items@;
            swap_items(items, i, i + 1);
            proof {
                assert(items@ =~= s.subrange(0, from as int) + s.subrange(from + 1, i + 2) + seq![
                    s[from as int],
                ] + s.subrange(i + 2, n as int)) by {
                    let a = s.subrange(0, from as int);
                    let b = s.subrange(from + 1, i + 1);
                    let c = s.subrange(i + 1, n as int);
                    let x = seq![s[from as int]];
                    assert(before == a + b + x + c);
                    assert((a + b + x).len() == i + 1);
                    assert((a + b + x)[i as int] == x[0]);
                    assert(before[i as int] == s[from as int]);
                    assert(c[0] == s[i + 1]);
                    assert(before[i + 1] == c[0]);
                }
            }
            i = i + 1;
        }
        proof {
            assert(items@ =~= moved(s, from as int, to as int));
        }
    } else {
        let mut i = from;
        while i > to
            invariant
                to <= i <= from < n,
                n == items@.len(),
                s.len() == n,
                items@ == s.subrange(0, i as int) + seq![s[from as int]] + s.subrange(
                    i as int,
                    from as int,
                ) + s.subrange(from + 1, n as int),
            decreases i - to,
        {
            let ghost before = items@;
            swap_items(items, i - 1, i);
            proof {
                assert(items@ =~= s.subrange(0, i - 1) + seq![s[from as int]] + s.subrange(
                    i - 1,
                    from as int,
                ) + s.subrange(from + 1, n as int)) by {
                    let a = s.subrange(0, i as int);
                    let b = s.subrange(i as int, from as int);
                    let c = s.subrange(from + 1, n as int);
                    let x = seq![s[from as int]];
                    assert(before == a + x + b + c);
                    assert((a + x).len() == i + 1);
                    assert((a + x)[i as int] == x[0]);
                    assert(before[i as int] == s[from as int]);
                    assert(a[i - 1] == s[i - 1]);
                    assert(before[i - 1] == a[i - 1]);
                }
            }
            i = i - 1;
        }
        proof {
            assert(items@ =~= moved(s, from as int, to as int));
        }
    }
}

/// A reorder can be undone: moving the element back from `to` to `from`
/// restores the starting order.
pub proof fn law_reorder_round_trip<T>(s: Seq<T>, from: int, to: int)
    requires
        0 <= from < s.len(),
        0 <= to < s.len(),
    ensures
        moved(moved(s, from, to), to, from) == s,
{
    let m = moved(s, from, to);
    assert(m.len() == s.len());
    assert(m[to] == s[from]);
    assert(m.remove(to) =~= s.remove(from));
    assert(moved(m, to, from) =~= s);
}

/// A reorder only permutes: every element is kept, as often as before.
pub proof fn law_reorder_permutes<T>(s: Seq<T>, from: int, to: int)
    requires
        0 <= from < s.len(),
        0 <= to < s.len(),
    ensures
        moved(s, from, to).to_multiset() == s.to_multiset(),
{
    broadcast use vstd::seq_lib::group_to_multiset_ensures;

    let r = s.remove(from);
    assert(s =~= r.insert(from, s[from]));
    r.to_multiset_ensures();
    assert(r.insert(from, s[from]).to_multiset() == r.to_multiset().insert(s[from]));
    assert(r.insert(to, s[from]).to_multiset() == r.to_multiset().insert(s[from]));
}

/// The dragged tab follows the pointer: when an armed [`Reorder`] sitting on
/// tab `anchor` is dragged onto `target`, applying the returned move with
/// [`reorder_slice`] puts the dragged tab at `target`, which is the new anchor.
pub proof fn law_drag_keeps_tab_under_pointer<T>(s: Seq<T>, anchor: int, target: int)
    requires
        0 <= anchor < s.len(),
        0 <= target < s.len(),
    ensures
        moved(s, anchor, target)[target] == s[anchor],
        moved(s, anchor, target).len() == s.len(),
{
}

} // verus!
