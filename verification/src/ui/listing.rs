use vstd::prelude::*;
use crate::scanner::{
    arrange, as_ints, lemma_sort_is_permutation, sort_order, sort_spec, sorted_order, Entry, SortField, SortOrder,
};
use crate::system::string_texts;
use crate::ui::{tree_line, tree_line_spec};

verus! {

/// How many entries the scan listing shows at most.
pub const SCAN_ROWS: usize = 60;

/// The positions of the children of `root` that the scan listing shows: the
/// largest first, at most `SCAN_ROWS` of them.
pub open spec fn scan_rows_spec(root: Entry) -> Seq<int> {
    let ord = sorted_order(root.children@, SortField::Size, SortOrder::Desc);
    if ord.len() <= SCAN_ROWS {
        ord
    } else {
        ord.take(SCAN_ROWS as int)
    }
}

/// The positions of the children of `root` that the scan listing shows.
pub fn scan_rows(root: &Entry) -> (r: Vec<usize>)
    ensures
        as_ints(r@) == scan_rows_spec(*root),
        forall|k: int| 0 <= k < r@.len() ==> #[trigger] r@[k] < root.children@.len(),
{
    let mut r = sort_order(root.children.as_slice(), SortField::Size, SortOrder::Desc);
    proof {
        lemma_sort_is_permutation(root.children@, SortField::Size, SortOrder::Desc);
        assert forall|k: int| 0 <= k < r@.len() implies #[trigger] r@[k] < root.children@.len() by {
            assert(as_ints(r@)[k] == r@[k] as int);
        }
    }
    if r.len() > SCAN_ROWS {
        let ghost full = r@;
        r.truncate(SCAN_ROWS);
        assert(as_ints(r@) =~= as_ints(full).take(SCAN_ROWS as int));
        assert forall|k: int| 0 <= k < r@.len() implies #[trigger] r@[k] < root.children@.len() by {
            assert(r@[k] == full[k]);
        }
    }
    r
}

/// How many levels the tree `e` has: one for `e`, and those of its deepest
/// child.
pub open spec fn tree_height(e: Entry) -> nat
    decreases e, 0nat,
{
    1 + forest_height(e.children@)
}

/// The height of the deepest tree of `cs`; 0 for none.
pub open spec fn forest_height(cs: Seq<Entry>) -> nat
    decreases cs, cs.len(),
{
    if cs.len() == 0 {
        0
    } else {
        let rest = forest_height(cs.drop_last());
        let last = tree_height(cs.last());
        if rest < last {
            last
        } else {
            rest
        }
    }
}

proof fn lemma_forest_height(cs: Seq<Entry>, j: int)
    requires
        0 <= j < cs.len(),
    ensures
        tree_height(cs[j]) <= forest_height(cs),
    decreases cs.len(),
{
    if j < cs.len() - 1 {
        lemma_forest_height(cs.drop_last(), j);
    }
}

/// The lines of the tree listing of `e` at depth `depth`: the line of `e`,
/// then the listings of its children one level deeper, the largest first.
pub open spec fn tree_lines_spec(e: Entry, depth: nat) -> Seq<Seq<char>>
    decreases e, 0nat,
{
    seq![tree_line_spec(e, depth)] + forest_lines(
        e.children@,
        sorted_order(e.children@, SortField::Size, SortOrder::Desc),
        depth + 1,
    )
}

/// The listings of the trees of `cs` at the positions `ord`, one after the
/// other.
pub open spec fn forest_lines(cs: Seq<Entry>, ord: Seq<int>, depth: nat) -> Seq<Seq<char>>
    decreases cs, ord.len(),
{
    if ord.len() == 0 {
        Seq::empty()
    } else {
        let j = ord.last();
        forest_lines(cs, ord.drop_last(), depth) + if 0 <= j < cs.len() {
            tree_lines_spec(cs[j], depth)
        } else {
            Seq::empty()
        }
    }
}

/// How many nodes the tree `e` has: `e` and all below it.
pub open spec fn node_count(e: Entry) -> nat
    decreases e, 0nat,
{
    1 + forest_count(e.children@)
}

/// How many nodes the trees of `cs` have together.
pub open spec fn forest_count(cs: Seq<Entry>) -> nat
    decreases cs, cs.len(),
{
    if cs.len() == 0 {
        0
    } else {
        forest_count(cs.drop_last()) + node_count(cs.last())
    }
}

proof fn lemma_forest_count_remove(s: Seq<Entry>, j: int)
    requires
        0 <= j < s.len(),
    ensures
        forest_count(s) == forest_count(s.remove(j)) + node_count(s[j]),
    decreases s.len(),
{
    if j == s.len() - 1 {
        assert(s.remove(j) =~= s.drop_last());
    } else {
        lemma_forest_count_remove(s.drop_last(), j);
        assert(s.remove(j).drop_last() =~= s.drop_last().remove(j));
        assert(s.remove(j).last() == s.last());
    }
}

proof fn lemma_forest_count_permutation(a: Seq<Entry>, b: Seq<Entry>)
    requires
        a.to_multiset() == b.to_multiset(),
    ensures
        forest_count(a) == forest_count(b),
    decreases a.len(),
{
    broadcast use vstd::seq_lib::group_to_multiset_ensures, vstd::multiset::group_multiset_axioms;

    if a.len() == 0 {
        assert(b.len() == b.to_multiset().len());
    } else {
        let x = a.last();
        assert(a.drop_last().push(x) =~= a);
        assert(a.to_multiset() == a.drop_last().to_multiset().insert(x));
        assert(b.to_multiset().count(x) > 0);
        assert(b.contains(x));
        let j = choose|j: int| 0 <= j < b.len() && b[j] == x;
        assert(b.remove(j).to_multiset() == b.to_multiset().remove(x));
        assert(a.drop_last().to_multiset() =~= b.remove(j).to_multiset());
        lemma_forest_count_permutation(a.drop_last(), b.remove(j));
        lemma_forest_count_remove(b, j);
    }
}

/// The tree listing has one line per node of the tree: `e`'s own line, then
/// those of every child, whatever its size, and of everything below.
pub proof fn lemma_tree_lines_count(e: Entry, depth: nat)
    ensures
        tree_lines_spec(e, depth).len() == node_count(e),
        tree_lines_spec(e, depth)[0] == tree_line_spec(e, depth),
    decreases e, 1nat,
{
    let cs = e.children@;
    let ord = sorted_order(cs, SortField::Size, SortOrder::Desc);
    lemma_sort_is_permutation(cs, SortField::Size, SortOrder::Desc);
    lemma_forest_lines_count(cs, ord, depth + 1);
    lemma_forest_count_permutation(sort_spec(cs, SortField::Size, SortOrder::Desc), cs);
}

proof fn lemma_forest_lines_count(cs: Seq<Entry>, ord: Seq<int>, depth: nat)
    requires
        forall|k: int| 0 <= k < ord.len() ==> 0 <= #[trigger] ord[k] < cs.len(),
    ensures
        forest_lines(cs, ord, depth).len() == forest_count(arrange(cs, ord)),
    decreases cs, ord.len(),
{
    if ord.len() > 0 {
        let j = ord.last();
        assert(0 <= ord[ord.len() - 1] < cs.len());
        lemma_forest_lines_count(cs, ord.drop_last(), depth);
        lemma_tree_lines_count(cs[j], depth);
        assert(arrange(cs, ord).drop_last() =~= arrange(cs, ord.drop_last()));
        assert(arrange(cs, ord).last() == cs[j]);
    } else {
        assert(arrange(cs, ord) =~= Seq::<Entry>::empty());
    }
}

/// The lines of the tree listing of `e`, whose top line is at depth `depth`.
pub fn tree_lines(e: &Entry, depth: usize) -> (r: Vec<String>)
    requires
        depth + tree_height(*e) <= usize::MAX,
    ensures
        string_texts(r@) == tree_lines_spec(*e, depth as nat),
    decreases e,
{
    let mut r: Vec<String> = Vec::new();
    r.push(tree_line(e, depth));
    let ord = sort_order(e.children.as_slice(), SortField::Size, SortOrder::Desc);
    let ghost full = as_ints(ord@);
    proof {
        lemma_sort_is_permutation(e.children@, SortField::Size, SortOrder::Desc);
    }
    let n = ord.len();
    for k in 0..n
        invariant
            n == ord@.len(),
            n == e.children@.len(),
            full == as_ints(ord@),
            full == sorted_order(e.children@, SortField::Size, SortOrder::Desc),
            forall|i: int| 0 <= i < n ==> 0 <= #[trigger] full[i] < n,
            depth + tree_height(*e) <= usize::MAX,
            string_texts(r@) == seq![tree_line_spec(*e, depth as nat)] + forest_lines(
                e.children@,
                full.take(k as int),
                (depth + 1) as nat,
            ),
    {
        let j = ord[k];
        assert(full[k as int] == j as int);
        proof {
            lemma_forest_height(e.children@, j as int);
        }
        let sub = tree_lines(&e.children[j], depth + 1);
        let ghost before = string_texts(r@);
        let m = sub.len();
        for i in 0..m
            invariant
                m == sub@.len(),
                string_texts(r@) == before + string_texts(sub@).take(i as int),
        {
            let ghost prev = r@;
            let line = sub[i].clone();
            assert(line@ == sub@[i as int]@);
            r.push(line);
            assert(r@ == prev.push(line));
            assert(string_texts(sub@).take(i + 1) =~= string_texts(sub@).take(i as int).push(line@));
            assert(string_texts(r@) =~= string_texts(prev).push(line@));
            assert(string_texts(r@) =~= before + string_texts(sub@).take(i + 1));
        }
        assert(string_texts(sub@).take(m as int) =~= string_texts(sub@));
        assert(full.take(k + 1).drop_last() =~= full.take(k as int));
        assert(full.take(k + 1).last() == j as int);
        assert(string_texts(r@) =~= seq![tree_line_spec(*e, depth as nat)] + forest_lines(
            e.children@,
            full.take(k + 1),
            (depth + 1) as nat,
        ));
    }
    assert(full.take(n as int) =~= full);
    r
}

/// The height of the tree `e`, where it fits in a `usize`.
fn height_of(e: &Entry) -> (r: Option<usize>)
    ensures
        r matches Some(h) ==> h == tree_height(*e),
        r is None ==> tree_height(*e) > usize::MAX,
    decreases e,
{
    let n = e.children.len();
    let mut best: usize = 0;
    for i in 0..n
        invariant
            n == e.children@.len(),
            best == forest_height(e.children@.take(i as int)),
    {
        let ghost cs = e.children@;
        assert(cs.take(i + 1).drop_last() =~= cs.take(i as int));
        assert(cs.take(i + 1).last() == cs[i as int]);
        match height_of(&e.children[i]) {
            Some(h) => {
                if best < h {
                    best = h;
                }
            },
            None => {
                proof {
                    lemma_forest_height(cs, i as int);
                }
                return None;
            },
        }
    }
    assert(e.children@.take(n as int) =~= e.children@);
    if best == usize::MAX {
        None
    } else {
        Some(best + 1)
    }
}

/// The tree listing of `root` from depth 0; `None` where the tree has more
/// levels than a `usize` counts.
pub fn tree_listing(root: &Entry) -> (r: Option<Vec<String>>)
    ensures
        r is None <==> tree_height(*root) > usize::MAX,
        r matches Some(v) ==> string_texts(v@) == tree_lines_spec(*root, 0),
{
    match height_of(root) {
        Some(_) => Some(tree_lines(root, 0)),
        None => None,
    }
}

} // verus!
