//! Rendering a value as text, safely on lists that contain themselves.
//!
//! The text of a number held as a bit pattern is the host's to produce, so a
//! rendering is a sequence of pieces: finished text, and the floats that
//! stand between.
use std::collections::HashSet;
use vstd::prelude::*;
use vstd::std_specs::hash::*;
use crate::heap::{Heap, HeapView};
use crate::text::{int_text, int_to_string};
use crate::value::{Float, ListRef, Value, ValueView};

verus! {

/// One piece of a rendering.
#[derive(Debug)]
pub enum Piece {
    /// Finished text.
    Text(String),
    /// A float, whose text stands here.
    Float(Float),
}

/// One piece of a rendering, as plain mathematical data.
pub enum PieceView {
    Text(Seq<char>),
    Float(Float),
}

impl View for Piece {
    type V = PieceView;

    open spec fn view(&self) -> PieceView {
        match self {
            Piece::Text(s) => PieceView::Text(s@),
            Piece::Float(f) => PieceView::Float(*f),
        }
    }
}

/// The views of a sequence of pieces.
pub open spec fn piece_views(pieces: Seq<Piece>) -> Seq<PieceView> {
    pieces.map_values(|p: Piece| p@)
}

/// The rendering of a value that is not a list.
pub open spec fn leaf(v: ValueView) -> PieceView {
    match v {
        ValueView::Int(i) => PieceView::Text(int_text(i as int)),
        ValueView::Float(f) => PieceView::Float(f),
        ValueView::Bool(b) => PieceView::Text(
            if b {
                "true"@
            } else {
                "false"@
            },
        ),
        ValueView::String(s) => PieceView::Text(s),
        ValueView::Ident(s) => PieceView::Text("'"@ + s),
        ValueView::ForeignFn(f) => PieceView::Text("<#"@ + f.name + ">"@),
        ValueView::Lambda(p) => PieceView::Text(
            "<@"@ + (match p.name {
                Some(n) => n,
                None => "anonymous"@,
            }) + ">"@,
        ),
        ValueView::List(_) => PieceView::Text(Seq::empty()),
    }
}

/// Where a traversal stands: the pieces written and the list objects entered.
pub struct Walk {
    pub out: Seq<PieceView>,
    pub seen: Set<usize>,
}

/// The traversal of one value, given the list objects entered so far.
///
/// A list object that was entered before gives `...`. Any other list object
/// is marked as entered and gives its elements between brackets. `depth`
/// bounds how many list objects may still be entered one inside the other; a
/// traversal that starts with the number of list objects in the store never
/// runs out of it.
pub open spec fn walk_value(heap: HeapView, v: ValueView, seen: Set<usize>, depth: nat) -> Walk
    decreases depth, 0nat, 0nat,
{
    match v {
        ValueView::List(l) => {
            if seen.contains(l.index) {
                Walk { out: seq![PieceView::Text("..."@)], seen: seen }
            } else if depth == 0 || l.index >= heap.lists.len() {
                Walk { out: Seq::empty(), seen: seen }
            } else {
                let inner = walk_items(
                    heap,
                    heap.lists[l.index as int],
                    0,
                    seen.insert(l.index),
                    (depth - 1) as nat,
                );
                Walk {
                    out: seq![PieceView::Text("["@)] + inner.out + seq![PieceView::Text("]"@)],
                    seen: inner.seen,
                }
            }
        },
        _ => Walk { out: seq![leaf(v)], seen: seen },
    }
}

/// The traversal of the elements of a list from position `from` on, with
/// `, ` before each element but the first.
pub open spec fn walk_items(
    heap: HeapView,
    items: Seq<ValueView>,
    from: nat,
    seen: Set<usize>,
    depth: nat,
) -> Walk
    decreases depth, 1nat, items.len() - from,
{
    if from >= items.len() {
        Walk { out: Seq::empty(), seen: seen }
    } else {
        let first = walk_value(heap, items[from as int], seen, depth);
        let rest = walk_items(heap, items, from + 1, first.seen, depth);
        Walk { out: separator(from) + first.out + rest.out, seen: rest.seen }
    }
}

/// What stands before the element at a position.
pub open spec fn separator(position: nat) -> Seq<PieceView> {
    if position == 0 {
        Seq::empty()
    } else {
        seq![PieceView::Text(", "@)]
    }
}

/// The rendering of a value: a traversal that has entered no list yet.
pub open spec fn render(heap: HeapView, v: ValueView) -> Seq<PieceView> {
    walk_value(heap, v, Set::empty(), heap.lists.len()).out
}

/// The piece for a value that is not a list.
fn leaf_piece(value: &Value) -> (res: Piece)
    requires
        !(value@ is List),
    ensures
        res@ == leaf(value@),
{
    match value {
        Value::Int(i) => Piece::Text(int_to_string(*i)),
        Value::Float(f) => Piece::Float(*f),
        Value::Bool(b) => Piece::Text(
            if *b {
                String::from_str("true")
            } else {
                String::from_str("false")
            },
        ),
        Value::String(s) => Piece::Text(s.clone()),
        Value::Ident(s) => {
            let mut text = String::from_str("'");
            text.append(s.as_str());
            Piece::Text(text)
        },
        Value::ForeignFn(f) => {
            let mut text = String::from_str("<#");
            text.append(f.name.as_str());
            text.append(">");
            Piece::Text(text)
        },
        Value::Lambda(p) => {
            let mut text = String::from_str("<@");
            match p.name() {
                Some(n) => {
                    text.append(n.as_str());
                },
                None => {
                    text.append("anonymous");
                },
            }
            text.append(">");
            Piece::Text(text)
        },
        Value::List(_) => Piece::Text(String::new()),
    }
}

/// Whether every member of the set is the index of a list object.
pub open spec fn within(seen: Set<usize>, heap: HeapView) -> bool {
    forall|k: usize| seen.contains(k) ==> k < heap.lists.len()
}

/// A set of list indices has at most as many members as there are lists.
proof fn lemma_within_len(seen: Set<usize>, heap: HeapView)
    requires
        seen.finite(),
        within(seen, heap),
    ensures
        seen.len() <= heap.lists.len(),
{
    let n = heap.lists.len() as int;
    let ints = seen.map(|k: usize| k as int);
    vstd::set_lib::lemma_int_range(0, n);
    assert(ints.subset_of(vstd::set_lib::set_int_range(0, n))) by {
        assert forall|x: int| ints.contains(x) implies vstd::set_lib::set_int_range(
            0,
            n,
        ).contains(x) by {
            let k = choose|k: usize| seen.contains(k) && x == k as int;
            assert(k < heap.lists.len());
        }
    }
    vstd::set_lib::lemma_len_subset(ints, vstd::set_lib::set_int_range(0, n));
    vstd::set_lib::lemma_map_size(seen, ints, |k: usize| k as int);
}

/// Appends the traversal of `cur` to `buf` and marks in `seen` the list
/// objects it enters.
fn build_buf(
    heap: &Heap,
    cur: &Value,
    buf: &mut Vec<Piece>,
    seen: &mut HashSet<usize>,
    Ghost(depth): Ghost<nat>,
)
    requires
        heap.wf(),
        heap@.holds(cur@),
        old(seen)@.finite(),
        within(old(seen)@, heap@),
        depth + old(seen)@.len() >= heap@.lists.len(),
    ensures
        piece_views(final(buf)@) == piece_views(old(buf)@) + walk_value(
            heap@,
            cur@,
            old(seen)@,
            depth,
        ).out,
        final(seen)@ == walk_value(heap@, cur@, old(seen)@, depth).seen,
        old(seen)@.subset_of(final(seen)@),
        final(seen)@.finite(),
        within(final(seen)@, heap@),
    decreases depth,
{
    broadcast use group_hash_axioms;

    match cur {
        Value::List(l) => {
            if seen.contains(&l.index) {
                buf.push(Piece::Text(String::from_str("...")));
                proof {
                    assert(piece_views(buf@) =~= piece_views(old(buf)@) + seq![
                        PieceView::Text("..."@),
                    ]);
                }
            } else {
                proof {
                    lemma_within_len(old(seen)@.insert(l.index), heap@);
                }
                seen.insert(l.index);
                buf.push(Piece::Text(String::from_str("[")));
                let ghost items = heap@.lists[l.index as int];
                let ghost entered = seen@;
                let ghost inner_depth = (depth - 1) as nat;
                let ghost mut done: Seq<PieceView> = Seq::empty();
                let n = heap.list_len(*l);
                let mut i: usize = 0;
                while i < n
                    invariant
                        heap.wf(),
                        l.index < heap@.lists.len(),
                        items == heap@.lists[l.index as int],
                        n == items.len(),
                        i <= n,
                        depth > 0,
                        inner_depth == depth - 1,
                        entered.finite(),
                        entered.subset_of(seen@),
                        seen@.finite(),
                        within(seen@, heap@),
                        inner_depth + entered.len() >= heap@.lists.len(),
                        piece_views(buf@) == piece_views(old(buf)@) + seq![PieceView::Text("["@)]
                            + done,
                        walk_items(heap@, items, 0, entered, inner_depth).out == done + walk_items(
                            heap@,
                            items,
                            i as nat,
                            seen@,
                            inner_depth,
                        ).out,
                        walk_items(heap@, items, 0, entered, inner_depth).seen == walk_items(
                            heap@,
                            items,
                            i as nat,
                            seen@,
                            inner_depth,
                        ).seen,
                    decreases n - i,
                {
                    let ghost before = seen@;
                    let ghost first = walk_value(heap@, items[i as int], before, inner_depth);
                    if i > 0 {
                        buf.push(Piece::Text(String::from_str(", ")));
                    }
                    let ghost mid = piece_views(buf@);
                    proof {
                        assert(mid =~= piece_views(old(buf)@) + seq![PieceView::Text("["@)] + done
                            + separator(i as nat));
                        vstd::set_lib::lemma_len_subset(entered, before);
                    }
                    build_buf(heap, heap.list_get(*l, i), buf, seen, Ghost(inner_depth));
                    proof {
                        assert(done + walk_items(heap@, items, i as nat, before, inner_depth).out
                            =~= (done + separator(i as nat) + first.out) + walk_items(
                            heap@,
                            items,
                            (i + 1) as nat,
                            first.seen,
                            inner_depth,
                        ).out);
                        assert(piece_views(buf@) =~= piece_views(old(buf)@) + seq![
                            PieceView::Text("["@),
                        ] + (done + separator(i as nat) + first.out));
                        done = done + separator(i as nat) + first.out;
                    }
                    i = i + 1;
                }
                let ghost body = piece_views(buf@);
                buf.push(Piece::Text(String::from_str("]")));
                proof {
                    assert(walk_items(heap@, items, 0, entered, inner_depth).out =~= done);
                    assert(piece_views(buf@) =~= body.push(PieceView::Text("]"@)));
                    assert(piece_views(buf@) =~= piece_views(old(buf)@) + (seq![
                        PieceView::Text("["@),
                    ] + done + seq![PieceView::Text("]"@)]));
                }
            }
        },
        other => {
            buf.push(leaf_piece(other));
            proof {
                assert(piece_views(buf@) =~= piece_views(old(buf)@) + seq![leaf(cur@)]);
            }
        },
    }
}

/// The rendering of `value`, total over the kinds of value.
///
/// Lists are told apart by identity, within this one call: a list object
/// that the traversal meets again gives `...` in place of its elements.
pub fn to_string_helper(heap: &Heap, value: &Value) -> (res: Vec<Piece>)
    requires
        heap.wf(),
        heap@.holds(value@),
    ensures
        piece_views(res@) == render(heap@, value@),
{
    broadcast use group_hash_axioms;

    let mut inner: Vec<Piece> = Vec::new();
    let mut seen: HashSet<usize> = HashSet::new();
    let ghost depth = heap@.lists.len();
    build_buf(heap, value, &mut inner, &mut seen, Ghost(depth));
    proof {
        assert(piece_views(Seq::<Piece>::empty()) =~= Seq::<PieceView>::empty());
        assert(piece_views(inner@) =~= render(heap@, value@));
    }
    inner
}

/// A traversal forgets no list object that was entered before it.
pub proof fn lemma_walk_value_keeps(heap: HeapView, v: ValueView, seen: Set<usize>, depth: nat)
    ensures
        seen.subset_of(walk_value(heap, v, seen, depth).seen),
    decreases depth, 0nat, 0nat,
{
    match v {
        ValueView::List(l) => {
            if !seen.contains(l.index) && depth > 0 && l.index < heap.lists.len() {
                lemma_walk_items_keeps(
                    heap,
                    heap.lists[l.index as int],
                    0,
                    seen.insert(l.index),
                    (depth - 1) as nat,
                );
            }
        },
        _ => {},
    }
}

/// A traversal of elements forgets no list object that was entered before it.
pub proof fn lemma_walk_items_keeps(
    heap: HeapView,
    items: Seq<ValueView>,
    from: nat,
    seen: Set<usize>,
    depth: nat,
)
    ensures
        seen.subset_of(walk_items(heap, items, from, seen, depth).seen),
    decreases depth, 1nat, items.len() - from,
{
    if from < items.len() {
        let first = walk_value(heap, items[from as int], seen, depth);
        lemma_walk_value_keeps(heap, items[from as int], seen, depth);
        lemma_walk_items_keeps(heap, items, from + 1, first.seen, depth);
    }
}

/// A traversal of a held value in a sound store enters list objects of the
/// store only, and finitely many.
pub proof fn lemma_walk_value_within(heap: HeapView, v: ValueView, seen: Set<usize>, depth: nat)
    requires
        heap.wf(),
        heap.holds(v),
        seen.finite(),
        within(seen, heap),
    ensures
        walk_value(heap, v, seen, depth).seen.finite(),
        within(walk_value(heap, v, seen, depth).seen, heap),
    decreases depth, 0nat, 0nat,
{
    match v {
        ValueView::List(l) => {
            if !seen.contains(l.index) && depth > 0 {
                lemma_walk_items_within(
                    heap,
                    heap.lists[l.index as int],
                    0,
                    seen.insert(l.index),
                    (depth - 1) as nat,
                );
            }
        },
        _ => {},
    }
}

/// A traversal of held elements in a sound store enters list objects of the
/// store only, and finitely many.
pub proof fn lemma_walk_items_within(
    heap: HeapView,
    items: Seq<ValueView>,
    from: nat,
    seen: Set<usize>,
    depth: nat,
)
    requires
        heap.wf(),
        heap.holds_all(items),
        seen.finite(),
        within(seen, heap),
    ensures
        walk_items(heap, items, from, seen, depth).seen.finite(),
        within(walk_items(heap, items, from, seen, depth).seen, heap),
    decreases depth, 1nat, items.len() - from,
{
    if from < items.len() {
        let first = walk_value(heap, items[from as int], seen, depth);
        lemma_walk_value_within(heap, items[from as int], seen, depth);
        lemma_walk_items_within(heap, items, from + 1, first.seen, depth);
    }
}

/// A traversal with a depth of at least the number of list objects not yet
/// entered does not run out of it: any other such depth gives the same.
pub proof fn lemma_depth_suffices(
    heap: HeapView,
    v: ValueView,
    seen: Set<usize>,
    depth: nat,
    other: nat,
)
    requires
        heap.wf(),
        heap.holds(v),
        seen.finite(),
        within(seen, heap),
        depth + seen.len() >= heap.lists.len(),
        other + seen.len() >= heap.lists.len(),
    ensures
        walk_value(heap, v, seen, depth) == walk_value(heap, v, seen, other),
    decreases depth, 0nat, 0nat,
{
    match v {
        ValueView::List(l) => {
            if !seen.contains(l.index) {
                lemma_within_len(seen.insert(l.index), heap);
                lemma_items_depth_suffices(
                    heap,
                    heap.lists[l.index as int],
                    0,
                    seen.insert(l.index),
                    (depth - 1) as nat,
                    (other - 1) as nat,
                );
            }
        },
        _ => {},
    }
}

/// A traversal of elements with a depth of at least the number of list
/// objects not yet entered gives the same as with any other such depth.
pub proof fn lemma_items_depth_suffices(
    heap: HeapView,
    items: Seq<ValueView>,
    from: nat,
    seen: Set<usize>,
    depth: nat,
    other: nat,
)
    requires
        heap.wf(),
        heap.holds_all(items),
        seen.finite(),
        within(seen, heap),
        depth + seen.len() >= heap.lists.len(),
        other + seen.len() >= heap.lists.len(),
    ensures
        walk_items(heap, items, from, seen, depth) == walk_items(heap, items, from, seen, other),
    decreases depth, 1nat, items.len() - from,
{
    if from < items.len() {
        let first = walk_value(heap, items[from as int], seen, depth);
        lemma_depth_suffices(heap, items[from as int], seen, depth, other);
        lemma_walk_value_keeps(heap, items[from as int], seen, depth);
        lemma_walk_value_within(heap, items[from as int], seen, depth);
        vstd::set_lib::lemma_len_subset(seen, first.seen);
        lemma_items_depth_suffices(heap, items, from + 1, first.seen, depth, other);
    }
}

/// Among the elements of a list that has been entered, a handle of that
/// list gives the piece `...`.
proof fn lemma_items_mark(
    heap: HeapView,
    items: Seq<ValueView>,
    from: nat,
    k: int,
    seen: Set<usize>,
    depth: nat,
    l: ListRef,
)
    requires
        from <= k < items.len(),
        items[k] == ValueView::List(l),
        seen.contains(l.index),
    ensures
        walk_items(heap, items, from, seen, depth).out.contains(PieceView::Text("..."@)),
    decreases k - from,
{
    let first = walk_value(heap, items[from as int], seen, depth);
    let rest = walk_items(heap, items, from + 1, first.seen, depth);
    let out = walk_items(heap, items, from, seen, depth).out;
    let lead = separator(from);
    if from == k {
        assert(out[lead.len() as int] == PieceView::Text("..."@));
    } else {
        lemma_walk_value_keeps(heap, items[from as int], seen, depth);
        lemma_items_mark(heap, items, from + 1, k, first.seen, depth, l);
        let j = choose|j: int| 0 <= j < rest.out.len() && rest.out[j] == PieceView::Text("..."@);
        assert(out[lead.len() + first.out.len() + j] == PieceView::Text("..."@));
    }
}

/// The rendering of a list that holds a handle of itself is finite and has
/// the piece `...` where the traversal meets the list again.
pub proof fn lemma_self_reference_marked(heap: HeapView, l: ListRef, k: int)
    requires
        l.index < heap.lists.len(),
        0 <= k < heap.lists[l.index as int].len(),
        heap.lists[l.index as int][k] == ValueView::List(l),
    ensures
        render(heap, ValueView::List(l)).contains(PieceView::Text("..."@)),
{
    let items = heap.lists[l.index as int];
    let entered = Set::<usize>::empty().insert(l.index);
    let depth = (heap.lists.len() - 1) as nat;
    lemma_items_mark(heap, items, 0, k, entered, depth, l);
    let inner = walk_items(heap, items, 0, entered, depth).out;
    let j = choose|j: int| 0 <= j < inner.len() && inner[j] == PieceView::Text("..."@);
    assert(render(heap, ValueView::List(l))[1 + j] == PieceView::Text("..."@));
}

/// The elements of a list from a position on, each rendered as a value that
/// is not a list, with `, ` between them.
pub open spec fn flat(items: Seq<ValueView>, from: nat) -> Seq<PieceView>
    decreases items.len() - from,
{
    if from >= items.len() {
        Seq::empty()
    } else {
        separator(from) + seq![leaf(items[from as int])] + flat(items, from + 1)
    }
}

/// Elements that are not lists are rendered one by one, whatever was
/// entered before, and enter nothing.
pub proof fn lemma_flat_items(
    heap: HeapView,
    items: Seq<ValueView>,
    from: nat,
    seen: Set<usize>,
    depth: nat,
)
    requires
        forall|i: int| 0 <= i < items.len() ==> !(#[trigger] items[i] is List),
    ensures
        walk_items(heap, items, from, seen, depth) == (Walk { out: flat(items, from), seen: seen }),
    decreases items.len() - from,
{
    let w = walk_items(heap, items, from, seen, depth);
    if from < items.len() {
        assert(!(items[from as int] is List));
        let first = walk_value(heap, items[from as int], seen, depth);
        assert(first.out =~= seq![leaf(items[from as int])]);
        assert(first.seen == seen);
        lemma_flat_items(heap, items, from + 1, seen, depth);
        assert(w.out =~= flat(items, from));
    } else {
        assert(w.out =~= flat(items, from));
    }
    assert(w.seen == seen);
}

/// A list without lists among its elements renders as its elements between
/// brackets: what other lists the store holds, with whatever elements, and
/// what was rendered before, makes no difference, and no `...` stands for
/// any element.
pub proof fn lemma_flat_list(heap: HeapView, l: ListRef)
    requires
        l.index < heap.lists.len(),
        forall|i: int|
            0 <= i < heap.lists[l.index as int].len() ==> !(
            #[trigger] heap.lists[l.index as int][i] is List),
    ensures
        render(heap, ValueView::List(l)) == seq![PieceView::Text("["@)] + flat(
            heap.lists[l.index as int],
            0,
        ) + seq![PieceView::Text("]"@)],
{
    lemma_flat_items(
        heap,
        heap.lists[l.index as int],
        0,
        Set::<usize>::empty().insert(l.index),
        (heap.lists.len() - 1) as nat,
    );
}

/// The text that pieces make when written one after the other, where every
/// piece is finished text; none where a float still stands among them.
pub open spec fn joined(pieces: Seq<PieceView>) -> Option<Seq<char>>
    decreases pieces.len(),
{
    if pieces.len() == 0 {
        Some(Seq::empty())
    } else {
        match (joined(pieces.drop_last()), pieces.last()) {
            (Some(front), PieceView::Text(t)) => Some(front + t),
            _ => None,
        }
    }
}

/// Writes the pieces one after the other. A caller that has put the text of
/// each float in its place gets the whole text.
pub fn joined_text(pieces: &Vec<Piece>) -> (res: Option<String>)
    ensures
        match res {
            Some(text) => joined(piece_views(pieces@)) == Some(text@),
            None => joined(piece_views(pieces@)).is_none(),
        },
{
    let mut text = String::new();
    let mut i: usize = 0;
    let ghost all = piece_views(pieces@);
    proof {
        assert(all.take(0) =~= Seq::empty());
    }
    while i < pieces.len()
        invariant
            i <= pieces.len(),
            all == piece_views(pieces@),
            joined(all.take(i as int)) == Some(text@),
        decreases pieces.len() - i,
    {
        proof {
            assert(all.take(i + 1).drop_last() =~= all.take(i as int));
        }
        match &pieces[i] {
            Piece::Text(t) => {
                text.append(t.as_str());
            },
            Piece::Float(_) => {
                proof {
                    lemma_joined_none(all, i + 1);
                }
                return None;
            },
        }
        i = i + 1;
    }
    proof {
        assert(all.take(i as int) =~= all);
    }
    Some(text)
}

/// Pieces whose beginning does not make a text make none.
proof fn lemma_joined_none(pieces: Seq<PieceView>, n: int)
    requires
        0 <= n <= pieces.len(),
        joined(pieces.take(n)).is_none(),
    ensures
        joined(pieces).is_none(),
    decreases pieces.len() - n,
{
    if n < pieces.len() {
        assert(pieces.take(n + 1).drop_last() =~= pieces.take(n));
        lemma_joined_none(pieces, n + 1);
    } else {
        assert(pieces.take(n) =~= pieces);
    }
}

} // verus!
