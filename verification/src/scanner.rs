use vstd::prelude::*;
use std::time::SystemTime;
use crate::text::{
    chars_contain, chars_eq, chars_lt, chars_of, contains_text, lemma_contains_empty, lemma_contains_transitive, lex_lt,
    lowercase, to_lowercase,
};

verus! {

#[verifier::external_type_specification]
#[verifier::external_body]
pub struct ExSystemTime(SystemTime);

/// One file or directory of a scanned tree.
#[derive(Debug)]
pub struct Entry {
    pub path: String,
    pub name: String,
    pub size: u64,
    pub is_dir: bool,
    pub children: Vec<Entry>,
    pub item_count: u64,
    pub modified: Option<SystemTime>,
}

/// The key by which entries are ordered.
#[derive(Debug, Clone, Copy, PartialEq, Eq, Structural)]
pub enum SortField {
    Size,
    Name,
    Count,
}

/// The direction in which entries are ordered.
#[derive(Debug, Clone, Copy, PartialEq, Eq, Structural)]
pub enum SortOrder {
    Asc,
    Desc,
}

/// `b` is a copy of the tree `a`: the same fields, and copies of the same
/// children in the same order.
pub open spec fn same_tree(a: Entry, b: Entry) -> bool
    decreases a, 1nat,
{
    &&& a.path@ == b.path@
    &&& a.name@ == b.name@
    &&& a.size == b.size
    &&& a.is_dir == b.is_dir
    &&& a.item_count == b.item_count
    &&& a.modified == b.modified
    &&& same_forest(a.children@, b.children@)
}

/// `ys` holds copies of the trees of `xs`, in the same order.
pub open spec fn same_forest(xs: Seq<Entry>, ys: Seq<Entry>) -> bool
    decreases xs, 0nat,
{
    &&& xs.len() == ys.len()
    &&& (xs.len() > 0 ==> same_forest(xs.drop_last(), ys.drop_last()) && same_tree(
        xs.last(),
        ys.last(),
    ))
}

/// `e` is a tree as a scan builds it, at every node: a file has no children
/// and counts as one item; a directory's size and item count are the sums
/// over its children, which come largest first.
pub open spec fn well_scanned(e: Entry) -> bool
    decreases e, 1nat,
{
    &&& if e.is_dir {
        &&& e.size == total_size(e.children@)
        &&& e.item_count == total_items(e.children@)
        &&& forall|k: int, l: int|
            0 <= k < l < e.children@.len() ==> #[trigger] e.children@[k].size >= #[trigger] e.children@[l].size
    } else {
        e.children@.len() == 0 && e.item_count == 1
    }
    &&& all_scanned(e.children@)
}

/// Every tree of `cs` is as a scan builds it.
pub open spec fn all_scanned(cs: Seq<Entry>) -> bool
    decreases cs, 0nat,
{
    cs.len() > 0 ==> all_scanned(cs.drop_last()) && well_scanned(cs.last())
}

/// `all_scanned` holds of a sequence exactly when each of its trees is as a
/// scan builds it.
pub proof fn lemma_all_scanned(cs: Seq<Entry>)
    ensures
        all_scanned(cs) <==> forall|i: int| 0 <= i < cs.len() ==> well_scanned(#[trigger] cs[i]),
    decreases cs.len(),
{
    if cs.len() > 0 {
        let init = cs.drop_last();
        lemma_all_scanned(init);
        if forall|i: int| 0 <= i < cs.len() ==> well_scanned(#[trigger] cs[i]) {
            assert(well_scanned(cs[cs.len() - 1]));
            assert forall|i: int| 0 <= i < init.len() implies well_scanned(#[trigger] init[i]) by {
                assert(init[i] == cs[i]);
            }
        }
        if all_scanned(cs) {
            assert forall|i: int| 0 <= i < cs.len() implies well_scanned(#[trigger] cs[i]) by {
                if i < cs.len() - 1 {
                    assert(init[i] == cs[i]);
                }
            }
        }
    }
}

proof fn lemma_total_remove(s: Seq<Entry>, j: int)
    requires
        0 <= j < s.len(),
    ensures
        total_size(s) == total_size(s.remove(j)) + s[j].size,
        total_items(s) == total_items(s.remove(j)) + s[j].item_count,
    decreases s.len(),
{
    if j == s.len() - 1 {
        assert(s.remove(j) =~= s.drop_last());
    } else {
        lemma_total_remove(s.drop_last(), j);
        assert(s.remove(j).drop_last() =~= s.drop_last().remove(j));
        assert(s.remove(j).last() == s.last());
    }
}

/// Sequences holding the same entries, in any order, have the same totals.
proof fn lemma_totals_of_permutation(a: Seq<Entry>, b: Seq<Entry>)
    requires
        a.to_multiset() == b.to_multiset(),
    ensures
        total_size(a) == total_size(b),
        total_items(a) == total_items(b),
    decreases a.len(),
{
    broadcast use vstd::seq_lib::group_to_multiset_ensures, vstd::multiset::group_multiset_axioms;

    if a.len() == 0 {
        assert(b.len() == b.to_multiset().len());
    } else {
        let x = a.last();
        assert(a.drop_last().push(x) =~= a);
        assert(a.to_multiset() == a.drop_last().to_multiset().insert(x));
        assert(b.to_multiset().count(x) > 0);
        assert(b.contains(x));
        let j = choose|j: int| 0 <= j < b.len() && b[j] == x;
        assert(b.remove(j).to_multiset() == b.to_multiset().remove(x));
        assert(a.drop_last().to_multiset() =~= b.remove(j).to_multiset());
        lemma_totals_of_permutation(a.drop_last(), b.remove(j));
        lemma_total_remove(b, j);
    }
}

/// A directory over trees that are as a scan builds them is itself one: its
/// children, sorted largest first, keep the totals and are each such trees.
proof fn lemma_directory_scanned(children: Seq<Entry>)
    requires
        forall|i: int| 0 <= i < children.len() ==> well_scanned(#[trigger] children[i]),
    ensures
        total_size(sort_spec(children, SortField::Size, SortOrder::Desc)) == total_size(children),
        total_items(sort_spec(children, SortField::Size, SortOrder::Desc)) == total_items(children),
        all_scanned(sort_spec(children, SortField::Size, SortOrder::Desc)),
        forall|k: int, l: int|
            0 <= k < l < children.len() ==> #[trigger] sort_spec(children, SortField::Size, SortOrder::Desc)[k].size
                >= #[trigger] sort_spec(children, SortField::Size, SortOrder::Desc)[l].size,
{
    let sorted = sort_spec(children, SortField::Size, SortOrder::Desc);
    let ord = sorted_order(children, SortField::Size, SortOrder::Desc);
    lemma_sort_is_permutation(children, SortField::Size, SortOrder::Desc);
    lemma_sort_is_ordered(children, SortField::Size, SortOrder::Desc);
    lemma_totals_of_permutation(sorted, children);
    assert forall|i: int| 0 <= i < sorted.len() implies well_scanned(#[trigger] sorted[i]) by {
        assert(sorted[i] == children[ord[i]]);
        assert(0 <= ord[i] < children.len());
    }
    lemma_all_scanned(sorted);
    assert forall|k: int, l: int| 0 <= k < l < children.len() implies #[trigger] sorted[k].size >= #[trigger] sorted[l].size by {
        assert(!goes_before(sorted[l], sorted[k], SortField::Size, SortOrder::Desc));
    }
}

impl Entry {
    /// A copy of the whole tree.
    pub fn deep_copy(&self) -> (r: Entry)
        ensures
            same_tree(*self, r),
        decreases self,
    {
        let mut children: Vec<Entry> = Vec::new();
        let n = self.children.len();
        for i in 0..n
            invariant
                n == self.children@.len(),
                same_forest(self.children@.take(i as int), children@),
        {
            let c = self.children[i].deep_copy();
            let ghost before = children@;
            children.push(c);
            assert(self.children@.take(i + 1).drop_last() =~= self.children@.take(i as int));
            assert(children@.drop_last() =~= before);
        }
        assert(self.children@.take(n as int) =~= self.children@);
        Entry {
            path: self.path.clone(),
            name: self.name.clone(),
            size: self.size,
            is_dir: self.is_dir,
            children,
            item_count: self.item_count,
            modified: self.modified,
        }
    }

    /// The entry of a file, or of a link that is not followed: one item of
    /// `size` bytes, with no children.
    pub fn file(path: String, name: String, size: u64, modified: Option<SystemTime>) -> (r: Entry)
        ensures
            well_scanned(r),
            r.path == path,
            r.name == name,
            r.size == size,
            !r.is_dir,
            r.children@.len() == 0,
            r.item_count == 1,
            r.modified == modified,
    {
        Entry { path, name, size, is_dir: false, children: Vec::new(), item_count: 1, modified }
    }

    /// The entry of a directory with the given children: its size and item
    /// count are the sums over the children, and the children are ordered by
    /// size, largest first. `None` where a sum exceeds `u64::MAX`.
    pub fn directory(
        path: String,
        name: String,
        modified: Option<SystemTime>,
        children: Vec<Entry>,
    ) -> (r: Option<Entry>)
        ensures
            r is Some <==> total_size(children@) <= u64::MAX && total_items(children@) <= u64::MAX,
            (forall|i: int| 0 <= i < children@.len() ==> well_scanned(#[trigger] children@[i])) ==> (
            r matches Some(e) ==> well_scanned(e)),
            r matches Some(e) ==> {
                &&& e.path == path
                &&& e.name == name
                &&& e.is_dir
                &&& e.size == total_size(children@)
                &&& e.item_count == total_items(children@)
                &&& e.modified == modified
                &&& e.children@ == sort_spec(children@, SortField::Size, SortOrder::Desc)
            },
    {
        let mut kids = children;
        let n = kids.len();
        let mut size: u64 = 0;
        let mut items: u64 = 0;
        for i in 0..n
            invariant
                n == kids@.len(),
                kids@ == children@,
                size == total_size(kids@.take(i as int)),
                items == total_items(kids@.take(i as int)),
        {
            assert(kids@.take(i + 1).drop_last() =~= kids@.take(i as int));
            proof {
                lemma_totals_monotone(kids@, i + 1);
            }
            let c = &kids[i];
            assert(kids@.take(i + 1).last() == kids@[i as int]);
            assert(total_size(kids@.take(i + 1)) == size + c.size);
            assert(total_items(kids@.take(i + 1)) == items + c.item_count);
            if size > u64::MAX - c.size || items > u64::MAX - c.item_count {
                assert(total_size(kids@) > u64::MAX || total_items(kids@) > u64::MAX);
                return None;
            }
            size = size + c.size;
            items = items + c.item_count;
        }
        assert(kids@.take(n as int) =~= kids@);
        let ghost unsorted = kids@;
        sort_entries(kids.as_mut_slice(), SortField::Size, SortOrder::Desc);
        let e = Entry { path, name, size, is_dir: true, children: kids, item_count: items, modified };
        proof {
            if forall|i: int| 0 <= i < unsorted.len() ==> well_scanned(#[trigger] unsorted[i]) {
                lemma_directory_scanned(unsorted);
                lemma_sort_is_permutation(unsorted, SortField::Size, SortOrder::Desc);
                assert(e.children@ == sort_spec(unsorted, SortField::Size, SortOrder::Desc));
                assert(e.size == total_size(e.children@));
                assert(e.item_count == total_items(e.children@));
                assert(all_scanned(e.children@));
                assert(e.children@.len() == unsorted.len());
                assert forall|k: int, l: int| 0 <= k < l < e.children@.len() implies #[trigger] e.children@[k].size
                    >= #[trigger] e.children@[l].size by {
                    assert(sort_spec(unsorted, SortField::Size, SortOrder::Desc)[k].size >= sort_spec(
                        unsorted,
                        SortField::Size,
                        SortOrder::Desc,
                    )[l].size);
                }
                assert(well_scanned(e));
            }
        }
        Some(e)
    }
}

impl Clone for Entry {
    fn clone(&self) -> (r: Self)
        ensures
            same_tree(*self, r),
    {
        self.deep_copy()
    }
}

/// The sum of the sizes of `s`.
pub open spec fn total_size(s: Seq<Entry>) -> int
    decreases s.len(),
{
    if s.len() == 0 {
        0
    } else {
        total_size(s.drop_last()) + s.last().size
    }
}

/// The sum of the item counts of `s`.
pub open spec fn total_items(s: Seq<Entry>) -> int
    decreases s.len(),
{
    if s.len() == 0 {
        0
    } else {
        total_items(s.drop_last()) + s.last().item_count
    }
}

proof fn lemma_totals_monotone(s: Seq<Entry>, k: int)
    requires
        0 <= k <= s.len(),
    ensures
        total_size(s.take(k)) <= total_size(s),
        total_items(s.take(k)) <= total_items(s),
    decreases s.len() - k,
{
    if k < s.len() {
        lemma_totals_monotone(s, k + 1);
        assert(s.take(k + 1).drop_last() =~= s.take(k));
    } else {
        assert(s.take(k) =~= s);
    }
}

/// The name by which entries are ordered: the name in lowercase.
pub open spec fn name_key(e: Entry) -> Seq<char> {
    lowercase(e.name@)
}

/// The key of `a` is smaller than the key of `b`.
pub open spec fn key_lt(a: Entry, b: Entry, field: SortField) -> bool {
    match field {
        SortField::Size => a.size < b.size,
        SortField::Name => lex_lt(name_key(a), name_key(b)),
        SortField::Count => a.item_count < b.item_count,
    }
}

/// `a` must come before `b` when ordering by `field` in direction `order`.
pub open spec fn goes_before(a: Entry, b: Entry, field: SortField, order: SortOrder) -> bool {
    match order {
        SortOrder::Asc => key_lt(a, b, field),
        SortOrder::Desc => key_lt(b, a, field),
    }
}

/// No entry goes before itself, and of two entries at most one goes before
/// the other; "does not go before" is transitive. Together: a strict weak
/// order, as a stable sort needs.
pub proof fn lemma_goes_before_order(a: Entry, b: Entry, c: Entry, field: SortField, order: SortOrder)
    ensures
        !goes_before(a, a, field, order),
        !(goes_before(a, b, field, order) && goes_before(b, a, field, order)),
        !goes_before(a, b, field, order) && !goes_before(b, c, field, order) ==> !goes_before(
            a,
            c,
            field,
            order,
        ),
{
    crate::text::lemma_lex_irreflexive(name_key(a));
    if lex_lt(name_key(a), name_key(b)) && lex_lt(name_key(b), name_key(a)) {
        crate::text::lemma_lex_transitive(name_key(a), name_key(b), name_key(a));
    }
    crate::text::lemma_lex_total(name_key(a), name_key(b));
    crate::text::lemma_lex_total(name_key(b), name_key(c));
    crate::text::lemma_lex_total(name_key(a), name_key(c));
    if lex_lt(name_key(c), name_key(b)) && lex_lt(name_key(b), name_key(a)) {
        crate::text::lemma_lex_transitive(name_key(c), name_key(b), name_key(a));
    }
    if lex_lt(name_key(a), name_key(b)) && lex_lt(name_key(b), name_key(c)) {
        crate::text::lemma_lex_transitive(name_key(a), name_key(b), name_key(c));
    }
    if lex_lt(name_key(c), name_key(a)) && lex_lt(name_key(a), name_key(c)) {
        crate::text::lemma_lex_transitive(name_key(c), name_key(a), name_key(c));
    }
    crate::text::lemma_lex_irreflexive(name_key(c));
}

/// Whether `a` must come before `b` when ordering by `field` in direction
/// `order`.
pub fn goes_before_exec(a: &Entry, b: &Entry, field: SortField, order: SortOrder) -> (r: bool)
    ensures
        r == goes_before(*a, *b, field, order),
{
    let (x, y) = match order {
        SortOrder::Asc => (a, b),
        SortOrder::Desc => (b, a),
    };
    match field {
        SortField::Size => x.size < y.size,
        SortField::Count => x.item_count < y.item_count,
        SortField::Name => {
            let lx = to_lowercase(x.name.as_str());
            let ly = to_lowercase(y.name.as_str());
            let cx = chars_of(lx.as_str());
            let cy = chars_of(ly.as_str());
            chars_lt(cx.as_slice(), cy.as_slice())
        },
    }
}

/// Where the stable insertion of `x` into the arrangement `r` puts it: past
/// every entry at the end of `r` that `x` must go before.
pub open spec fn insert_position(
    s: Seq<Entry>,
    r: Seq<int>,
    x: int,
    field: SortField,
    order: SortOrder,
) -> int
    decreases r.len(),
{
    if r.len() == 0 {
        0
    } else if goes_before(s[x], s[r.last()], field, order) {
        insert_position(s, r.drop_last(), x, field, order)
    } else {
        r.len() as int
    }
}

/// The stable arrangement of the first `m` entries of `s`, as positions in `s`.
pub open spec fn sorted_prefix(s: Seq<Entry>, m: nat, field: SortField, order: SortOrder) -> Seq<
    int,
>
    decreases m,
{
    if m == 0 {
        Seq::empty()
    } else {
        let r = sorted_prefix(s, (m - 1) as nat, field, order);
        r.insert(insert_position(s, r, m - 1, field, order), m - 1)
    }
}

/// The stable arrangement of `s` by `field` in direction `order`, as positions
/// in `s`: what a stable sort with that comparison makes of `s`.
pub open spec fn sorted_order(s: Seq<Entry>, field: SortField, order: SortOrder) -> Seq<int> {
    sorted_prefix(s, s.len(), field, order)
}

/// The entries of `s` at the positions `ord`, in that order.
pub open spec fn arrange(s: Seq<Entry>, ord: Seq<int>) -> Seq<Entry> {
    Seq::new(ord.len(), |k: int| s[ord[k]])
}

/// `s` after a stable sort by `field` in direction `order`.
pub open spec fn sort_spec(s: Seq<Entry>, field: SortField, order: SortOrder) -> Seq<Entry> {
    arrange(s, sorted_order(s, field, order))
}

/// `ord` lists each of the positions `0..n` exactly once.
pub open spec fn is_permutation(ord: Seq<int>, n: int) -> bool {
    &&& ord.len() == n
    &&& forall|k: int| 0 <= k < n ==> 0 <= #[trigger] ord[k] < n
    &&& forall|k: int, l: int| 0 <= k < l < n ==> #[trigger] ord[k] != #[trigger] ord[l]
}

/// Along `ord`, no entry of `s` must go before one that precedes it.
pub open spec fn in_order(s: Seq<Entry>, ord: Seq<int>, field: SortField, order: SortOrder) -> bool {
    forall|k: int, l: int|
        0 <= k < l < ord.len() ==> !goes_before(s[#[trigger] ord[l]], s[#[trigger] ord[k]], field, order)
}

/// Along `ord`, entries of equal key keep the order they have in `s`.
pub open spec fn keeps_ties(s: Seq<Entry>, ord: Seq<int>, field: SortField, order: SortOrder) -> bool {
    forall|k: int, l: int|
        0 <= k < l < ord.len() && !goes_before(s[#[trigger] ord[k]], s[#[trigger] ord[l]], field, order)
            && !goes_before(s[ord[l]], s[ord[k]], field, order) ==> ord[k] < ord[l]
}

proof fn lemma_insert_position(s: Seq<Entry>, r: Seq<int>, x: int, field: SortField, order: SortOrder)
    ensures
        0 <= insert_position(s, r, x, field, order) <= r.len(),
        forall|k: int|
            insert_position(s, r, x, field, order) <= k < r.len() ==> goes_before(
                s[x],
                s[#[trigger] r[k]],
                field,
                order,
            ),
        insert_position(s, r, x, field, order) > 0 ==> !goes_before(
            s[x],
            s[r[insert_position(s, r, x, field, order) - 1]],
            field,
            order,
        ),
    decreases r.len(),
{
    if r.len() > 0 && goes_before(s[x], s[r.last()], field, order) {
        let q = r.drop_last();
        lemma_insert_position(s, q, x, field, order);
        assert forall|k: int|
            insert_position(s, r, x, field, order) <= k < r.len() implies goes_before(
                s[x],
                s[#[trigger] r[k]],
                field,
                order,
            ) by {
            if k < r.len() - 1 {
                assert(r[k] == q[k]);
            }
        }
    }
}

proof fn lemma_insert_keeps_permutation(r: Seq<int>, p: int, x: int)
    requires
        is_permutation(r, x),
        0 <= p <= r.len(),
    ensures
        is_permutation(r.insert(p, x), x + 1),
{
    let t = r.insert(p, x);
    r.insert_ensures(p, x);
    assert forall|k: int| 0 <= k < x + 1 implies 0 <= #[trigger] t[k] < x + 1 by {
        if k < p {
            assert(t[k] == r[k]);
        } else if k > p {
            assert(t[k] == r[k - 1]);
        }
    }
    assert forall|k: int, l: int| 0 <= k < l < x + 1 implies #[trigger] t[k] != #[trigger] t[l] by {
        if k < p && l < p {
            assert(r[k] != r[l]);
        } else if k < p && l == p {
            assert(r[k] < x);
        } else if k < p && l > p {
            assert(t[l] == r[l - 1]);
            assert(r[k] != r[l - 1]);
        } else if k == p {
            assert(t[l] == r[l - 1]);
            assert(r[l - 1] < x);
        } else {
            assert(t[k] == r[k - 1]);
            assert(t[l] == r[l - 1]);
            assert(r[k - 1] != r[l - 1]);
        }
    }
}

proof fn lemma_insert_keeps_order(s: Seq<Entry>, r: Seq<int>, x: int, field: SortField, order: SortOrder)
    requires
        is_permutation(r, x),
        x < s.len(),
        in_order(s, r, field, order),
    ensures
        in_order(s, r.insert(insert_position(s, r, x, field, order), x), field, order),
{
    let p = insert_position(s, r, x, field, order);
    lemma_insert_position(s, r, x, field, order);
    let t = r.insert(p, x);
    r.insert_ensures(p, x);
    assert forall|k: int, l: int| 0 <= k < l < t.len() implies !goes_before(
        s[#[trigger] t[l]],
        s[#[trigger] t[k]],
        field,
        order,
    ) by {
        if k < p && l < p {
            assert(!goes_before(s[r[l]], s[r[k]], field, order));
        } else if k < p && l == p {
            assert(!goes_before(s[x], s[r[p - 1]], field, order));
            if k < p - 1 {
                assert(!goes_before(s[r[p - 1]], s[r[k]], field, order));
            }
            lemma_goes_before_order(s[x], s[r[p - 1]], s[r[k]], field, order);
        } else if k < p && l > p {
            assert(t[l] == r[l - 1]);
            assert(!goes_before(s[r[l - 1]], s[r[k]], field, order));
        } else if k == p {
            assert(t[l] == r[l - 1]);
            assert(goes_before(s[x], s[r[l - 1]], field, order));
            lemma_goes_before_order(s[x], s[r[l - 1]], s[x], field, order);
        } else {
            assert(t[k] == r[k - 1]);
            assert(t[l] == r[l - 1]);
            assert(!goes_before(s[r[l - 1]], s[r[k - 1]], field, order));
        }
    }
}

proof fn lemma_insert_keeps_ties(s: Seq<Entry>, r: Seq<int>, x: int, field: SortField, order: SortOrder)
    requires
        is_permutation(r, x),
        x < s.len(),
        keeps_ties(s, r, field, order),
    ensures
        keeps_ties(s, r.insert(insert_position(s, r, x, field, order), x), field, order),
{
    let p = insert_position(s, r, x, field, order);
    lemma_insert_position(s, r, x, field, order);
    let t = r.insert(p, x);
    r.insert_ensures(p, x);
    assert forall|k: int, l: int|
        0 <= k < l < t.len() && !goes_before(s[#[trigger] t[k]], s[#[trigger] t[l]], field, order)
            && !goes_before(s[t[l]], s[t[k]], field, order) implies t[k] < t[l] by {
        if k < p && l < p {
            assert(!goes_before(s[r[k]], s[r[l]], field, order));
        } else if k < p && l == p {
            assert(r[k] < x);
        } else if k < p && l > p {
            assert(t[l] == r[l - 1]);
            assert(!goes_before(s[r[k]], s[r[l - 1]], field, order));
        } else if k == p {
            assert(t[l] == r[l - 1]);
            assert(goes_before(s[x], s[r[l - 1]], field, order));
        } else {
            assert(t[k] == r[k - 1]);
            assert(t[l] == r[l - 1]);
            assert(!goes_before(s[r[k - 1]], s[r[l - 1]], field, order));
        }
    }
}

proof fn lemma_sorted_prefix(s: Seq<Entry>, m: nat, field: SortField, order: SortOrder)
    requires
        m <= s.len(),
    ensures
        is_permutation(sorted_prefix(s, m, field, order), m as int),
        in_order(s, sorted_prefix(s, m, field, order), field, order),
        keeps_ties(s, sorted_prefix(s, m, field, order), field, order),
    decreases m,
{
    if m > 0 {
        let r = sorted_prefix(s, (m - 1) as nat, field, order);
        let x = m - 1;
        lemma_sorted_prefix(s, (m - 1) as nat, field, order);
        lemma_insert_position(s, r, x, field, order);
        lemma_insert_keeps_permutation(r, insert_position(s, r, x, field, order), x);
        lemma_insert_keeps_order(s, r, x, field, order);
        lemma_insert_keeps_ties(s, r, x, field, order);
    }
}

/// Sorting only rearranges: the arrangement lists every position of `s` once.
pub proof fn lemma_sort_is_permutation(s: Seq<Entry>, field: SortField, order: SortOrder)
    ensures
        is_permutation(sorted_order(s, field, order), s.len() as int),
        sort_spec(s, field, order).to_multiset() =~= s.to_multiset(),
{
    lemma_sorted_prefix(s, s.len(), field, order);
    lemma_arrange_permutation_multiset(s, sorted_order(s, field, order));
}

/// After sorting, no entry must go before one placed ahead of it.
pub proof fn lemma_sort_is_ordered(s: Seq<Entry>, field: SortField, order: SortOrder)
    ensures
        forall|k: int, l: int|
            0 <= k < l < s.len() ==> !goes_before(
                #[trigger] sort_spec(s, field, order)[l],
                #[trigger] sort_spec(s, field, order)[k],
                field,
                order,
            ),
{
    lemma_sorted_prefix(s, s.len(), field, order);
    let ord = sorted_order(s, field, order);
    assert forall|k: int, l: int| 0 <= k < l < s.len() implies !goes_before(
        #[trigger] sort_spec(s, field, order)[l],
        #[trigger] sort_spec(s, field, order)[k],
        field,
        order,
    ) by {
        assert(!goes_before(s[ord[l]], s[ord[k]], field, order));
    }
}

/// Sorting is stable: entries of equal key keep their relative order.
pub proof fn lemma_sort_is_stable(s: Seq<Entry>, field: SortField, order: SortOrder)
    ensures
        keeps_ties(s, sorted_order(s, field, order), field, order),
{
    lemma_sorted_prefix(s, s.len(), field, order);
}

/// Along a sorted sequence the key never goes against the direction: sizes,
/// and item counts, rise (ascending) or fall (descending) weakly from each
/// entry to every later one, and so do lowercase names in the order of their
/// characters. The result holds as many entries as `s`.
pub proof fn lemma_sorted_keys(s: Seq<Entry>, field: SortField, order: SortOrder)
    ensures
        sort_spec(s, field, order).len() == s.len(),
        field == SortField::Size && order == SortOrder::Asc ==> forall|k: int, l: int|
            0 <= k < l < s.len() ==> #[trigger] sort_spec(s, field, order)[k].size <= #[trigger] sort_spec(
                s,
                field,
                order,
            )[l].size,
        field == SortField::Size && order == SortOrder::Desc ==> forall|k: int, l: int|
            0 <= k < l < s.len() ==> #[trigger] sort_spec(s, field, order)[k].size >= #[trigger] sort_spec(
                s,
                field,
                order,
            )[l].size,
        field == SortField::Count && order == SortOrder::Asc ==> forall|k: int, l: int|
            0 <= k < l < s.len() ==> #[trigger] sort_spec(s, field, order)[k].item_count
                <= #[trigger] sort_spec(s, field, order)[l].item_count,
        field == SortField::Count && order == SortOrder::Desc ==> forall|k: int, l: int|
            0 <= k < l < s.len() ==> #[trigger] sort_spec(s, field, order)[k].item_count
                >= #[trigger] sort_spec(s, field, order)[l].item_count,
        field == SortField::Name && order == SortOrder::Asc ==> forall|k: int, l: int|
            0 <= k < l < s.len() ==> !lex_lt(
                lowercase(#[trigger] sort_spec(s, field, order)[l].name@),
                lowercase(#[trigger] sort_spec(s, field, order)[k].name@),
            ),
        field == SortField::Name && order == SortOrder::Desc ==> forall|k: int, l: int|
            0 <= k < l < s.len() ==> !lex_lt(
                lowercase(#[trigger] sort_spec(s, field, order)[k].name@),
                lowercase(#[trigger] sort_spec(s, field, order)[l].name@),
            ),
{
    lemma_sort_is_permutation(s, field, order);
    lemma_sort_is_ordered(s, field, order);
    let r = sort_spec(s, field, order);
    assert forall|k: int, l: int| 0 <= k < l < s.len() implies !goes_before(r[l], r[k], field, order) by {
        assert(!goes_before(sort_spec(s, field, order)[l], sort_spec(s, field, order)[k], field, order));
    }
}

/// The filter keeps exactly the entries whose name, in lowercase, contains
/// the query in lowercase, in the order they come in.
pub proof fn lemma_filter_by_name(s: Seq<Entry>, q: Seq<char>)
    ensures
        matching(s, q) == s.filter(|e: Entry| contains_text(lowercase(e.name@), lowercase(q))),
    decreases s.len(),
{
    reveal(Seq::filter);
    let pred = |e: Entry| contains_text(lowercase(e.name@), lowercase(q));
    if s.len() > 0 {
        lemma_filter_by_name(s.drop_last(), q);
        assert(matches_query(s.last(), q) == pred(s.last()));
        assert(s.filter(pred) == if pred(s.last()) {
            s.drop_last().filter(pred).push(s.last())
        } else {
            s.drop_last().filter(pred)
        });
    } else {
        assert(s.filter(pred) == s);
    }
}

proof fn lemma_arrange_permutation_multiset(s: Seq<Entry>, ord: Seq<int>)
    requires
        is_permutation(ord, s.len() as int),
    ensures
        arrange(s, ord).to_multiset() =~= s.to_multiset(),
    decreases s.len(),
{
    broadcast use vstd::seq_lib::group_to_multiset_ensures;
    if s.len() > 0 {
        let n = s.len() - 1;
        // the position of the last entry of s in ord
        assert(exists|k: int| 0 <= k <= n && ord[k] == n) by {
            lemma_permutation_hits(ord, s.len() as int, n);
        }
        let k = choose|k: int| 0 <= k <= n && ord[k] == n;
        let ord2 = ord.remove(k);
        ord.remove_ensures(k);
        assert forall|i: int| 0 <= i < n implies 0 <= #[trigger] ord2[i] < n by {
            let j = if i < k { i } else { i + 1 };
            assert(ord2[i] == ord[j]);
            assert(ord[j] != ord[k]);
        }
        assert forall|i: int, j: int| 0 <= i < j < n implies #[trigger] ord2[i] != #[trigger] ord2[j] by {
            let ii = if i < k { i } else { i + 1 };
            let jj = if j < k { j } else { j + 1 };
            assert(ord[ii] != ord[jj]);
        }
        lemma_arrange_permutation_multiset(s.drop_last(), ord2);
        assert(arrange(s.drop_last(), ord2) =~= arrange(s, ord).remove(k));
        arrange(s, ord).remove_ensures(k);
        assert(arrange(s, ord) =~= arrange(s, ord).remove(k).insert(k, s[n]));
        arrange(s, ord).remove(k).to_multiset_ensures();
        lemma_insert_multiset(arrange(s, ord).remove(k), k, s[n]);
        assert(s =~= s.drop_last().push(s[n]));
    }
}

proof fn lemma_insert_multiset(r: Seq<Entry>, k: int, x: Entry)
    requires
        0 <= k <= r.len(),
    ensures
        r.insert(k, x).to_multiset() =~= r.to_multiset().insert(x),
{
    broadcast use vstd::seq_lib::group_to_multiset_ensures;
    let a = r.subrange(0, k);
    let b = r.subrange(k, r.len() as int);
    assert(r =~= a + b);
    assert(r.insert(k, x) =~= a.push(x) + b);
    vstd::seq_lib::lemma_multiset_commutative(a.push(x), b);
    vstd::seq_lib::lemma_multiset_commutative(a, b);
}

proof fn lemma_permutation_hits(ord: Seq<int>, n: int, v: int)
    requires
        is_permutation(ord, n),
        0 <= v < n,
    ensures
        exists|k: int| 0 <= k < n && ord[k] == v,
{
    // the values of ord are n distinct numbers below n, so they are all of them
    let vals = Set::new(|x: int| exists|k: int| 0 <= k < n && ord[k] == x);
    let f = |k: int| ord[k];
    let dom = Set::new(|k: int| 0 <= k < n);
    vstd::set_lib::lemma_int_range(0, n);
    assert(dom =~= vstd::set_lib::set_int_range(0, n));
    assert forall|y: int| vals.contains(y) <==> dom.map(f).contains(y) by {
        if vals.contains(y) {
            let k = choose|k: int| 0 <= k < n && ord[k] == y;
            assert(dom.contains(k) && f(k) == y);
        }
        if dom.map(f).contains(y) {
            let k = choose|k: int| dom.contains(k) && f(k) == y;
            assert(0 <= k < n && ord[k] == y);
        }
    }
    assert(vals =~= dom.map(f));
    assert(vstd::relations::injective_on(f, dom)) by {
        assert forall|a: int, b: int| dom.contains(a) && dom.contains(b) && #[trigger] f(a) == #[trigger] f(b) implies a == b by {
            if a < b {
                assert(ord[a] != ord[b]);
            } else if b < a {
                assert(ord[b] != ord[a]);
            }
        }
    }
    vstd::set_lib::lemma_map_size(dom, vals, f);
    if !vals.contains(v) {
        assert(vals.subset_of(vstd::set_lib::set_int_range(0, n).remove(v)));
        vstd::set_lib::lemma_len_subset(vals, vstd::set_lib::set_int_range(0, n).remove(v));
    }
}

proof fn lemma_insert_step(s: Seq<Entry>, r: Seq<int>, x: int, j: int, field: SortField, order: SortOrder)
    requires
        0 < j <= r.len(),
        goes_before(s[x], s[r[j - 1]], field, order),
    ensures
        insert_position(s, r.take(j), x, field, order) == insert_position(s, r.take(j - 1), x, field, order),
{
    assert(r.take(j).drop_last() =~= r.take(j - 1));
}

proof fn lemma_insert_stop(s: Seq<Entry>, r: Seq<int>, x: int, j: int, field: SortField, order: SortOrder)
    requires
        0 <= j <= r.len(),
        j > 0 ==> !goes_before(s[x], s[r[j - 1]], field, order),
    ensures
        insert_position(s, r.take(j), x, field, order) == j,
{
}

/// The positions of `entries` in the order a stable sort by `field` in
/// direction `order` gives them.
pub fn sort_order(entries: &[Entry], field: SortField, order: SortOrder) -> (idx: Vec<usize>)
    ensures
        idx@.len() == entries@.len(),
        as_ints(idx@) == sorted_order(entries@, field, order),
{
    let n = entries.len();
    let mut idx: Vec<usize> = Vec::new();
    for m in 0..n
        invariant
            n == entries@.len(),
            as_ints(idx@) == sorted_prefix(entries@, m as nat, field, order),
    {
        let ghost s = entries@;
        let ghost r = sorted_prefix(s, m as nat, field, order);
        proof {
            lemma_sorted_prefix(s, m as nat, field, order);
            lemma_insert_position(s, r, m as int, field, order);
            assert(r.take(m as int) =~= r);
            lemma_sorted_prefix(s, m as nat, field, order);
            assert(idx@.len() == m);
        }
        idx.push(m);
        let mut j: usize = m;
        while j > 0 && goes_before_exec(&entries[m], &entries[idx[j - 1]], field, order)
            invariant
                n == entries@.len(),
                s == entries@,
                m < n,
                j <= m,
                idx@.len() == m + 1,
                r == sorted_prefix(s, m as nat, field, order),
                is_permutation(r, m as int),
                forall|k: int| 0 <= k < j ==> idx@[k] as int == #[trigger] r[k],
                idx@[j as int] == m,
                forall|k: int| j < k <= m ==> idx@[k] as int == r[k - 1],
                insert_position(s, r, m as int, field, order) == insert_position(s, r.take(j as int), m as int, field, order),
            decreases j,
        {
            proof {
                lemma_insert_step(s, r, m as int, j as int, field, order);
            }
            let t = idx[j - 1];
            idx.set(j - 1, m);
            idx.set(j, t);
            j = j - 1;
        }
        proof {
            lemma_insert_stop(s, r, m as int, j as int, field, order);
            let t = sorted_prefix(s, (m + 1) as nat, field, order);
            r.insert_ensures(j as int, m as int);
            assert(t == r.insert(j as int, m as int));
            assert forall|k: int| 0 <= k < m + 1 implies idx@[k] as int == #[trigger] t[k] by {
                if k < j {
                } else if k == j {
                } else {
                    assert(t[k] == r[k - 1]);
                }
            }
            assert(as_ints(idx@) =~= t);
        }
    }
    proof {
        lemma_sorted_prefix(entries@, n as nat, field, order);
        assert(as_ints(idx@).len() == idx@.len());
    }
    idx
}

/// The positions of `v` as integers.
pub open spec fn as_ints(v: Seq<usize>) -> Seq<int> {
    Seq::new(v.len(), |k: int| v[k] as int)
}

/// Sorts `entries` by `field` in direction `order`. The sort is stable:
/// entries whose keys are equal keep their order.
pub fn sort_entries(entries: &mut [Entry], field: SortField, order: SortOrder)
    ensures
        final(entries)@ == sort_spec(old(entries)@, field, order),
{
    let ghost s = old(entries)@;
    let n = entries.len();
    let ghost mut g: Seq<int> = Seq::new(n as nat, |k: int| k);
    assert(entries@ =~= arrange(s, g));
    for m in 0..n
        invariant
            n == s.len(),
            entries@.len() == n,
            g.len() == n,
            entries@ == arrange(s, g),
            g.take(m as int) == sorted_prefix(s, m as nat, field, order),
            forall|k: int| m <= k < n ==> g[k] == k,
    {
        let ghost r = sorted_prefix(s, m as nat, field, order);
        proof {
            lemma_sorted_prefix(s, m as nat, field, order);
            lemma_insert_position(s, r, m as int, field, order);
            assert(r.take(m as int) =~= r);
            assert(forall|k: int| 0 <= k < m ==> g[k] == #[trigger] g.take(m as int)[k]);
        }
        let mut j: usize = m;
        while j > 0 && goes_before_exec(&entries[j], &entries[j - 1], field, order)
            invariant
                n == s.len(),
                entries@.len() == n,
                g.len() == n,
                entries@ == arrange(s, g),
                m < n,
                j <= m,
                r == sorted_prefix(s, m as nat, field, order),
                is_permutation(r, m as int),
                forall|k: int| 0 <= k < j ==> g[k] == #[trigger] r[k],
                g[j as int] == m,
                forall|k: int| j < k <= m ==> g[k] == r[k - 1],
                forall|k: int| m < k < n ==> g[k] == k,
                insert_position(s, r, m as int, field, order) == insert_position(s, r.take(j as int), m as int, field, order),
            decreases j,
        {
            proof {
                lemma_insert_step(s, r, m as int, j as int, field, order);
            }
            let ghost gj = g[j as int];
            let ghost gj1 = g[j - 1];
            {
                let (left, right) = entries.split_at_mut(j);
                std::mem::swap(&mut left[j - 1], &mut right[0]);
            }
            proof {
                g = g.update(j - 1, gj).update(j as int, gj1);
                assert(entries@ =~= arrange(s, g));
            }
            j = j - 1;
        }
        proof {
            lemma_insert_stop(s, r, m as int, j as int, field, order);
            let t = sorted_prefix(s, (m + 1) as nat, field, order);
            r.insert_ensures(j as int, m as int);
            assert(t == r.insert(j as int, m as int));
            assert forall|k: int| 0 <= k < m + 1 implies g[k] == #[trigger] t[k] by {
                if k < j {
                } else if k == j {
                } else {
                    assert(t[k] == r[k - 1]);
                }
            }
            assert(g.take(m + 1) =~= t);
        }
    }
    proof {
        assert(g =~= g.take(n as int));
    }
}

/// `e` passes the search `query`: its lowercase name contains the lowercase
/// query. The empty query passes everything.
pub open spec fn matches_query(e: Entry, query: Seq<char>) -> bool {
    contains_text(name_key(e), lowercase(query))
}

/// The entries of `s` that pass `query`, in their order.
pub open spec fn matching(s: Seq<Entry>, query: Seq<char>) -> Seq<Entry>
    decreases s.len(),
{
    if s.len() == 0 {
        s
    } else {
        let r = matching(s.drop_last(), query);
        if matches_query(s.last(), query) {
            r.push(s.last())
        } else {
            r
        }
    }
}

/// A query whose lowercase text contains that of another keeps nothing that
/// the other drops: every entry that passes `q2` passes `q1`, and filtering
/// by `q2` keeps, in order, a part of what filtering by `q1` keeps.
pub proof fn lemma_filter_narrows(s: Seq<Entry>, q1: Seq<char>, q2: Seq<char>)
    requires
        contains_text(lowercase(q2), lowercase(q1)),
    ensures
        forall|e: Entry| #[trigger] matches_query(e, q2) ==> matches_query(e, q1),
        matching(s, q2) == matching(matching(s, q1), q2),
    decreases s.len(),
{
    assert forall|e: Entry| #[trigger] matches_query(e, q2) implies matches_query(e, q1) by {
        lemma_contains_transitive(name_key(e), lowercase(q2), lowercase(q1));
    }
    if s.len() > 0 {
        lemma_filter_narrows(s.drop_last(), q1, q2);
        let x = s.last();
        if matches_query(x, q1) {
            assert(matching(s, q1).drop_last() =~= matching(s.drop_last(), q1));
        }
    }
}

/// The positions of `ord` whose entries of `s` pass `query`, in their order.
pub open spec fn matching_positions(s: Seq<Entry>, ord: Seq<int>, query: Seq<char>) -> Seq<int>
    decreases ord.len(),
{
    if ord.len() == 0 {
        ord
    } else {
        let r = matching_positions(s, ord.drop_last(), query);
        if matches_query(s[ord.last()], query) {
            r.push(ord.last())
        } else {
            r
        }
    }
}

/// Filtering an arrangement by positions gives the entries that filtering the
/// arranged entries gives.
pub proof fn lemma_matching_positions(s: Seq<Entry>, ord: Seq<int>, query: Seq<char>)
    ensures
        arrange(s, matching_positions(s, ord, query)) == matching(arrange(s, ord), query),
    decreases ord.len(),
{
    if ord.len() > 0 {
        lemma_matching_positions(s, ord.drop_last(), query);
        assert(arrange(s, ord).drop_last() =~= arrange(s, ord.drop_last()));
        let r = matching_positions(s, ord.drop_last(), query);
        assert(arrange(s, r.push(ord.last())) =~= arrange(s, r).push(s[ord.last()]));
    }
}

/// The positions that filtering keeps are positions of the arrangement.
pub proof fn lemma_matching_positions_bounded(s: Seq<Entry>, ord: Seq<int>, query: Seq<char>, n: int)
    requires
        forall|k: int| 0 <= k < ord.len() ==> 0 <= #[trigger] ord[k] < n,
    ensures
        forall|k: int| 0 <= k < matching_positions(s, ord, query).len() ==> 0 <= #[trigger] matching_positions(s, ord, query)[k] < n,
    decreases ord.len(),
{
    if ord.len() > 0 {
        lemma_matching_positions_bounded(s, ord.drop_last(), query, n);
        let r = matching_positions(s, ord.drop_last(), query);
        assert(ord.last() == ord[ord.len() - 1]);
        assert forall|k: int| 0 <= k < r.push(ord.last()).len() implies 0 <= #[trigger] r.push(ord.last())[k] < n by {
            if k < r.len() {
                assert(r.push(ord.last())[k] == r[k]);
            }
        }
    }
}

/// The entries seen through references.
pub open spec fn deref_all(v: Seq<&Entry>) -> Seq<Entry> {
    Seq::new(v.len(), |k: int| *v[k])
}

/// Whether `e` passes a query whose lowercase characters are `lower_query`.
fn passes(e: &Entry, lower_query: &[char], query: Ghost<Seq<char>>) -> (r: bool)
    requires
        lower_query@ == lowercase(query@),
    ensures
        r == matches_query(*e, query@),
{
    let lower = to_lowercase(e.name.as_str());
    let lc = chars_of(lower.as_str());
    chars_contain(lc.as_slice(), lower_query)
}

/// The entries whose names contain `query`, ignoring case, in their order;
/// all of them when `query` is empty.
pub fn filter_entries<'a>(entries: &'a [Entry], query: &str) -> (r: Vec<&'a Entry>)
    ensures
        deref_all(r@) == matching(entries@, query@),
{
    let n = entries.len();
    let mut r: Vec<&'a Entry> = Vec::new();
    let empty = query.is_empty();
    let lq = to_lowercase(query);
    let lower_query = chars_of(lq.as_str());
    for i in 0..n
        invariant
            n == entries@.len(),
            empty == (query@.len() == 0),
            empty ==> lower_query@.len() == 0,
            lower_query@ == lowercase(query@),
            deref_all(r@) == matching(entries@.take(i as int), query@),
    {
        assert(entries@.take(i + 1).drop_last() =~= entries@.take(i as int));
        let e = &entries[i];
        let keep = if empty {
            proof {
                lemma_contains_empty(name_key(entries@[i as int]), lower_query@);
            }
            true
        } else {
            passes(e, lower_query.as_slice(), Ghost(query@))
        };
        let ghost before = r@;
        if keep {
            r.push(e);
            assert(deref_all(r@) =~= deref_all(before).push(*e));
        }
    }
    assert(entries@.take(n as int) =~= entries@);
    r
}

/// The positions `order` of `entries` whose entries pass `query`, in their
/// order.
pub fn filter_positions(entries: &[Entry], order: &Vec<usize>, query: &str) -> (r: Vec<usize>)
    requires
        forall|k: int| 0 <= k < order@.len() ==> #[trigger] order@[k] < entries@.len(),
    ensures
        as_ints(r@) == matching_positions(entries@, as_ints(order@), query@),
{
    let n = order.len();
    let mut r: Vec<usize> = Vec::new();
    let empty = query.is_empty();
    let lq = to_lowercase(query);
    let lower_query = chars_of(lq.as_str());
    for i in 0..n
        invariant
            n == order@.len(),
            forall|k: int| 0 <= k < order@.len() ==> #[trigger] order@[k] < entries@.len(),
            empty == (query@.len() == 0),
            empty ==> lower_query@.len() == 0,
            lower_query@ == lowercase(query@),
            as_ints(r@) == matching_positions(entries@, as_ints(order@).take(i as int), query@),
    {
        assert(as_ints(order@).take(i + 1).drop_last() =~= as_ints(order@).take(i as int));
        let p = order[i];
        let keep = if empty {
            proof {
                lemma_contains_empty(name_key(entries@[p as int]), lower_query@);
            }
            true
        } else {
            passes(&entries[p], lower_query.as_slice(), Ghost(query@))
        };
        let ghost before = r@;
        if keep {
            r.push(p);
            assert(as_ints(r@) =~= as_ints(before).push(p as int));
        }
    }
    assert(as_ints(order@).take(n as int) =~= as_ints(order@));
    r
}

/// The position of the first entry of `s` named `name`.
pub open spec fn first_named(s: Seq<Entry>, name: Seq<char>) -> Option<int>
    decreases s.len(),
{
    if s.len() == 0 {
        None
    } else if s[0].name@ == name {
        Some(0)
    } else {
        match first_named(s.drop_first(), name) {
            Some(i) => Some(i + 1),
            None => None,
        }
    }
}

proof fn lemma_first_named(s: Seq<Entry>, name: Seq<char>, i: int)
    requires
        0 <= i <= s.len(),
        forall|j: int| 0 <= j < i ==> #[trigger] s[j].name@ != name,
    ensures
        first_named(s, name) == match first_named(s.skip(i), name) {
            Some(k) => Some(k + i),
            None => None,
        },
    decreases i,
{
    if i > 0 {
        lemma_first_named(s.drop_first(), name, i - 1);
        assert(s.drop_first().skip(i - 1) =~= s.skip(i));
    } else {
        assert(s.skip(0) =~= s);
    }
}

proof fn lemma_first_named_bounds(s: Seq<Entry>, name: Seq<char>)
    ensures
        first_named(s, name) matches Some(i) ==> 0 <= i < s.len() && s[i].name@ == name,
    decreases s.len(),
{
    if s.len() > 0 {
        lemma_first_named_bounds(s.drop_first(), name);
    }
}

/// The position of the first child of `entry` named `name`.
fn position_of_child(entry: &Entry, name: &str) -> (r: Option<usize>)
    ensures
        r matches Some(i) ==> first_named(entry.children@, name@) == Some(i as int) && i < entry.children@.len(),
        r is None ==> first_named(entry.children@, name@) is None,
{
    let target = chars_of(name);
    let n = entry.children.len();
    let ghost s = entry.children@;
    for i in 0..n
        invariant
            n == s.len(),
            s == entry.children@,
            target@ == name@,
            forall|j: int| 0 <= j < i ==> #[trigger] s[j].name@ != name@,
    {
        let cn = chars_of(entry.children[i].name.as_str());
        if chars_eq(cn.as_slice(), target.as_slice()) {
            proof {
                lemma_first_named(s, name@, i as int);
                assert(s.skip(i as int)[0] == s[i as int]);
            }
            return Some(i);
        }
    }
    proof {
        lemma_first_named(s, name@, n as int);
    }
    None
}

/// The first child of `entry` named `name`.
pub fn find_child<'a>(entry: &'a Entry, name: &str) -> (r: Option<&'a Entry>)
    ensures
        match first_named(entry.children@, name@) {
            Some(i) => r matches Some(c) && *c == entry.children@[i],
            None => r is None,
        },
{
    match position_of_child(entry, name) {
        Some(i) => Some(&entry.children[i]),
        None => None,
    }
}

/// The first child of `entry` named `name`, for changing it in place.
pub fn find_child_mut<'a>(entry: &'a mut Entry, name: &str) -> (r: Option<&'a mut Entry>)
    ensures
        match first_named(old(entry).children@, name@) {
            Some(i) => r matches Some(c) && *c == old(entry).children@[i] && final(entry).children@
                == old(entry).children@.update(i, *final(c)),
            None => r is None && *final(entry) == *old(entry),
        },
        r matches Some(c) && *final(c) == *c ==> final(entry).children@ == old(entry).children@,
        final(entry).path == old(entry).path,
        final(entry).name == old(entry).name,
        final(entry).size == old(entry).size,
        final(entry).is_dir == old(entry).is_dir,
        final(entry).item_count == old(entry).item_count,
        final(entry).modified == old(entry).modified,
{
    match position_of_child(entry, name) {
        Some(i) => Some(&mut entry.children[i]),
        None => None,
    }
}

/// The names of a path, one per component.
pub open spec fn names_of(path: Seq<String>) -> Seq<Seq<char>> {
    Seq::new(path.len(), |i: int| path[i]@)
}

/// The entry reached from `e` by going, for each name of `path` in turn, to
/// the first child of that name; `None` where some name is missing.
pub open spec fn lookup(e: Entry, path: Seq<Seq<char>>) -> Option<Entry>
    decreases path.len(),
{
    if path.len() == 0 {
        Some(e)
    } else {
        match first_named(e.children@, path[0]) {
            Some(i) => lookup(e.children@[i], path.drop_first()),
            None => None,
        }
    }
}

/// Following the names of `p` and then those of `q` reaches what following
/// the names of `p + q` reaches.
pub proof fn lemma_lookup_concat(e: Entry, p: Seq<Seq<char>>, q: Seq<Seq<char>>)
    ensures
        lookup(e, p + q) == match lookup(e, p) {
            Some(x) => lookup(x, q),
            None => None,
        },
    decreases p.len(),
{
    if p.len() == 0 {
        assert(p + q =~= q);
    } else {
        assert((p + q)[0] == p[0]);
        assert((p + q).drop_first() =~= p.drop_first() + q);
        match first_named(e.children@, p[0]) {
            Some(i) => {
                lemma_lookup_concat(e.children@[i], p.drop_first(), q);
            },
            None => {},
        }
    }
}

/// The entry that an optional reference points to.
pub open spec fn deref_opt(o: Option<&Entry>) -> Option<Entry> {
    match o {
        Some(e) => Some(*e),
        None => None,
    }
}

/// The entry below `root` reached by following the names of `path`.
pub fn find_entry_by_path<'a>(root: &'a Entry, path: &[String]) -> (r: Option<&'a Entry>)
    ensures
        deref_opt(r) == lookup(*root, names_of(path@)),
{
    let n = path.len();
    let mut current = root;
    assert(names_of(path@).skip(0) =~= names_of(path@));
    for k in 0..n
        invariant
            n == path@.len(),
            lookup(*root, names_of(path@)) == lookup(*current, names_of(path@).skip(k as int)),
    {
        let ghost rest = names_of(path@).skip(k as int);
        assert(rest[0] == path@[k as int]@);
        assert(rest.drop_first() =~= names_of(path@).skip(k + 1));
        match position_of_child(current, path[k].as_str()) {
            Some(i) => {
                current = &current.children[i];
            },
            None => {
                return None;
            },
        }
    }
    assert(names_of(path@).skip(n as int) =~= Seq::<Seq<char>>::empty());
    Some(current)
}

} // verus!
