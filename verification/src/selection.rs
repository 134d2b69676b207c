//! Sets of paths (compared by components, as `BTreeSet<PathBuf>` does) and
//! the order in which `Path`s sort.
use vstd::prelude::*;
use crate::path::{components, same_path, paths_equal, path_components};
use vstd::multiset::Multiset;

verus! {

broadcast use crate::text::lemma_chars_deep_view;

/// The paths of a selection, each as its components.
pub open spec fn comp_set(sel: Seq<Seq<char>>) -> Set<Seq<Seq<char>>> {
    Set::new(|c: Seq<Seq<char>>| exists|i: int| 0 <= i < sel.len() && components(#[trigger] sel[i]) == c)
}

/// No two entries of a selection are the same path.
pub open spec fn sel_unique(sel: Seq<Seq<char>>) -> bool {
    forall|i: int, j: int| 0 <= i < j < sel.len() ==> !same_path(#[trigger] sel[i], #[trigger] sel[j])
}

/// The views of a list of strings.
pub open spec fn views(v: Seq<String>) -> Seq<Seq<char>> {
    v.map_values(|s: String| s@)
}

/// Whether `p` is one of the selected paths.
pub fn sel_contains(sel: &Vec<String>, p: &str) -> (r: bool)
    ensures
        r == comp_set(views(sel@)).contains(components(p@)),
{
    let mut i: usize = 0;
    while i < sel.len()
        invariant
            i <= sel.len(),
            forall|j: int| 0 <= j < i ==> components(views(sel@)[j]) != components(p@),
        decreases sel.len() - i,
    {
        if paths_equal(sel[i].as_str(), p) {
            proof {
                assert(components(views(sel@)[i as int]) == components(p@));
            }
            return true;
        }
        i += 1;
    }
    false
}

/// The position of the entry that is the path `p`, if any.
pub fn sel_position(sel: &Vec<String>, p: &str) -> (r: Option<usize>)
    ensures
        match r {
            Some(i) => i < sel.len() && same_path(sel@[i as int]@, p@),
            None => !comp_set(views(sel@)).contains(components(p@)),
        },
{
    let mut i: usize = 0;
    while i < sel.len()
        invariant
            i <= sel.len(),
            forall|j: int| 0 <= j < i ==> components(views(sel@)[j]) != components(p@),
        decreases sel.len() - i,
    {
        if paths_equal(sel[i].as_str(), p) {
            return Some(i);
        }
        i += 1;
    }
    None
}

/// Adds `p` unless the same path is already there (`BTreeSet::insert`);
/// returns whether it was added.
pub fn sel_insert(sel: &mut Vec<String>, p: String) -> (added: bool)
    requires
        sel_unique(views(old(sel)@)),
    ensures
        sel_unique(views(final(sel)@)),
        comp_set(views(final(sel)@)) == comp_set(views(old(sel)@)).insert(components(p@)),
        added == !comp_set(views(old(sel)@)).contains(components(p@)),
{
    if sel_contains(sel, p.as_str()) {
        proof {
            assert(comp_set(views(sel@)).insert(components(p@)) =~= comp_set(views(sel@)));
        }
        return false;
    }
    let ghost before = views(sel@);
    sel.push(p);
    proof {
        let after = views(sel@);
        assert(after =~= before.push(p@));
        assert(comp_set(after) =~= comp_set(before).insert(components(p@))) by {
            assert forall|c: Seq<Seq<char>>| comp_set(after).contains(c) implies comp_set(before).insert(components(p@)).contains(c) by {
                let i = choose|i: int| 0 <= i < after.len() && components(after[i]) == c;
                if i < before.len() {
                    assert(before[i] == after[i]);
                }
            }
            assert forall|c: Seq<Seq<char>>| comp_set(before).insert(components(p@)).contains(c) implies comp_set(after).contains(c) by {
                if c == components(p@) {
                    assert(components(after[before.len() as int]) == c);
                } else {
                    let i = choose|i: int| 0 <= i < before.len() && components(before[i]) == c;
                    assert(after[i] == before[i]);
                }
            }
        }
        assert forall|i: int, j: int| 0 <= i < j < after.len() implies !same_path(#[trigger] after[i], #[trigger] after[j]) by {
            if j == before.len() {
                assert(after[i] == before[i]);
                assert(comp_set(before).contains(components(before[i])));
            } else {
                assert(after[i] == before[i] && after[j] == before[j]);
            }
        }
    }
    true
}

/// Removes the path `p` if present (`BTreeSet::remove`); returns whether it was there.
pub fn sel_remove(sel: &mut Vec<String>, p: &str) -> (removed: bool)
    requires
        sel_unique(views(old(sel)@)),
    ensures
        sel_unique(views(final(sel)@)),
        comp_set(views(final(sel)@)) == comp_set(views(old(sel)@)).remove(components(p@)),
        removed == comp_set(views(old(sel)@)).contains(components(p@)),
{
    match sel_position(sel, p) {
        None => {
            proof {
                assert(comp_set(views(sel@)).remove(components(p@)) =~= comp_set(views(sel@)));
            }
            false
        },
        Some(i) => {
            let ghost before = views(sel@);
            proof {
                assert(before[i as int] == sel@[i as int]@);
            }
            sel.remove(i);
            proof {
                let after = views(sel@);
                assert(after =~= before.remove(i as int));
                assert(comp_set(after) =~= comp_set(before).remove(components(p@))) by {
                    assert forall|c: Seq<Seq<char>>| comp_set(after).contains(c) implies comp_set(before).remove(components(p@)).contains(c) by {
                        let k = choose|k: int| 0 <= k < after.len() && components(after[k]) == c;
                        if k < i {
                            assert(after[k] == before[k]);
                            assert(!same_path(before[k], before[i as int]));
                        } else {
                            assert(after[k] == before[k + 1]);
                            assert(!same_path(before[i as int], before[k + 1]));
                        }
                    }
                    assert forall|c: Seq<Seq<char>>| comp_set(before).remove(components(p@)).contains(c) implies comp_set(after).contains(c) by {
                        let k = choose|k: int| 0 <= k < before.len() && components(before[k]) == c;
                        if k < i {
                            assert(after[k] == before[k]);
                        } else {
                            assert(k != i);
                            assert(after[k - 1] == before[k]);
                        }
                    }
                }
                assert forall|a: int, b: int| 0 <= a < b < after.len() implies !same_path(#[trigger] after[a], #[trigger] after[b]) by {
                    let a0 = if a < i { a } else { a + 1 };
                    let b0 = if b < i { b } else { b + 1 };
                    assert(after[a] == before[a0]);
                    assert(after[b] == before[b0]);
                }
            }
            true
        },
    }
}

/// The order of path components: root, then `.`, then `..`, then names by characters.
pub open spec fn comp_rank(x: Seq<char>) -> int {
    if x == seq!['/'] {
        0
    } else if x == seq!['.'] {
        1
    } else if x == seq!['.', '.'] {
        2
    } else {
        3
    }
}

/// Lexicographic order of character sequences (a proper prefix comes first).
pub open spec fn chars_lt(a: Seq<char>, b: Seq<char>) -> bool
    decreases a.len(),
{
    if a.len() == 0 {
        b.len() > 0
    } else if b.len() == 0 {
        false
    } else if a[0] < b[0] {
        true
    } else if a[0] != b[0] {
        false
    } else {
        chars_lt(a.drop_first(), b.drop_first())
    }
}

/// Whether component `x` sorts before component `y`.
pub open spec fn comp_lt(x: Seq<char>, y: Seq<char>) -> bool {
    comp_rank(x) < comp_rank(y) || (comp_rank(x) == 3 && comp_rank(y) == 3 && chars_lt(x, y))
}

/// Lexicographic order of component lists.
pub open spec fn comps_lt(a: Seq<Seq<char>>, b: Seq<Seq<char>>) -> bool
    decreases a.len(),
{
    if a.len() == 0 {
        b.len() > 0
    } else if b.len() == 0 {
        false
    } else if comp_lt(a[0], b[0]) {
        true
    } else if a[0] != b[0] {
        false
    } else {
        comps_lt(a.drop_first(), b.drop_first())
    }
}

/// Whether path `a` sorts before path `b` (`Path`'s `Ord`).
pub open spec fn path_lt(a: Seq<char>, b: Seq<char>) -> bool {
    comps_lt(components(a), components(b))
}

fn chars_less(a: &[char], b: &[char]) -> (r: bool)
    ensures
        r == chars_lt(a@, b@),
{
    let mut i: usize = 0;
    proof {
        assert(a@.skip(0) =~= a@);
        assert(b@.skip(0) =~= b@);
    }
    while i < a.len() && i < b.len() && a[i] == b[i]
        invariant
            i <= a.len(),
            i <= b.len(),
            chars_lt(a@, b@) == chars_lt(a@.skip(i as int), b@.skip(i as int)),
        decreases a.len() - i,
    {
        proof {
            assert(a@.skip(i as int).drop_first() =~= a@.skip(i + 1));
            assert(b@.skip(i as int).drop_first() =~= b@.skip(i + 1));
        }
        i += 1;
    }
    proof {
        if i < a.len() && i < b.len() {
            assert(a@.skip(i as int)[0] == a@[i as int]);
            assert(b@.skip(i as int)[0] == b@[i as int]);
        }
    }
    if i == a.len() {
        i < b.len()
    } else if i == b.len() {
        false
    } else {
        a[i] < b[i]
    }
}

fn rank_of(x: &[char]) -> (r: u8)
    ensures
        r as int == comp_rank(x@),
{
    let r: u8 = if x.len() == 1 && x[0] == '/' {
        0
    } else if x.len() == 1 && x[0] == '.' {
        1
    } else if x.len() == 2 && x[0] == '.' && x[1] == '.' {
        2
    } else {
        3
    };
    proof {
        if x@.len() == 1 && x@[0] == '/' {
            assert(x@ =~= seq!['/']);
        } else if x@.len() == 1 && x@[0] == '.' {
            assert(x@ =~= seq!['.']);
        } else if x@.len() == 2 && x@[0] == '.' && x@[1] == '.' {
            assert(x@ =~= seq!['.', '.']);
        }
    }
    r
}

/// Whether string `a` sorts before string `b` (`str`'s order: by characters).
pub fn chars_less_str(a: &str, b: &str) -> (r: bool)
    ensures
        r == chars_lt(a@, b@),
{
    let x = crate::text::chars_of(a);
    let y = crate::text::chars_of(b);
    chars_less(x.as_slice(), y.as_slice())
}

/// Two different character sequences are ordered one way or the other.
pub proof fn law_chars_order_total(a: Seq<char>, b: Seq<char>)
    requires
        a != b,
    ensures
        chars_lt(a, b) || chars_lt(b, a),
    decreases a.len(),
{
    if a.len() > 0 && b.len() > 0 && a[0] == b[0] {
        if a.drop_first() == b.drop_first() {
            assert(a =~= seq![a[0]] + a.drop_first());
            assert(b =~= seq![b[0]] + b.drop_first());
        }
        law_chars_order_total(a.drop_first(), b.drop_first());
    } else if a.len() == 0 && b.len() == 0 {
        assert(a =~= b);
    } else if a.len() > 0 && b.len() > 0 {
        assert(a[0] != b[0]);
    }
}

/// Whether path `a` sorts before path `b`.
pub fn path_less(a: &str, b: &str) -> (r: bool)
    ensures
        r == path_lt(a@, b@),
{
    let ca = path_components(a);
    let cb = path_components(b);
    let ghost x = ca.deep_view();
    let ghost y = cb.deep_view();
    let mut i: usize = 0;
    proof {
        assert(x.skip(0) =~= x);
        assert(y.skip(0) =~= y);
    }
    loop
        invariant
            i <= ca.len(),
            i <= cb.len(),
            x == ca.deep_view(),
            y == cb.deep_view(),
            comps_lt(x, y) == comps_lt(x.skip(i as int), y.skip(i as int)),
            comps_lt(x, y) == path_lt(a@, b@),
        decreases ca.len() - i,
    {
        if i == ca.len() {
            return i < cb.len();
        }
        if i == cb.len() {
            return false;
        }
        proof {
            assert(x.skip(i as int)[0] == ca@[i as int]@);
            assert(y.skip(i as int)[0] == cb@[i as int]@);
        }
        let ra = rank_of(ca[i].as_slice());
        let rb = rank_of(cb[i].as_slice());
        if ra < rb {
            return true;
        }
        if ra == 3 && rb == 3 && chars_less(ca[i].as_slice(), cb[i].as_slice()) {
            return true;
        }
        if !crate::text::chars_equal(ca[i].as_slice(), cb[i].as_slice()) {
            return false;
        }
        proof {
            assert(x.skip(i as int).drop_first() =~= x.skip(i + 1));
            assert(y.skip(i as int).drop_first() =~= y.skip(i + 1));
        }
        i += 1;
    }
}

pub proof fn lemma_chars_lt_irrefl(a: Seq<char>)
    ensures
        !chars_lt(a, a),
    decreases a.len(),
{
    if a.len() > 0 {
        lemma_chars_lt_irrefl(a.drop_first());
    }
}

pub proof fn lemma_chars_lt_trans(a: Seq<char>, b: Seq<char>, c: Seq<char>)
    requires
        chars_lt(a, b),
        chars_lt(b, c),
    ensures
        chars_lt(a, c),
    decreases a.len(),
{
    if a.len() > 0 && b.len() > 0 && c.len() > 0 {
        if a[0] == b[0] && b[0] == c[0] {
            lemma_chars_lt_trans(a.drop_first(), b.drop_first(), c.drop_first());
        }
    }
}

proof fn lemma_comp_lt_irrefl(x: Seq<char>)
    ensures
        !comp_lt(x, x),
{
    lemma_chars_lt_irrefl(x);
}

proof fn lemma_comp_lt_trans(x: Seq<char>, y: Seq<char>, z: Seq<char>)
    requires
        comp_lt(x, y),
        comp_lt(y, z),
    ensures
        comp_lt(x, z),
{
    if comp_rank(x) == 3 && comp_rank(y) == 3 && comp_rank(z) == 3 {
        if chars_lt(x, y) && chars_lt(y, z) {
            lemma_chars_lt_trans(x, y, z);
        }
    }
}

proof fn lemma_comps_lt_irrefl(a: Seq<Seq<char>>)
    ensures
        !comps_lt(a, a),
    decreases a.len(),
{
    if a.len() > 0 {
        lemma_comp_lt_irrefl(a[0]);
        lemma_comps_lt_irrefl(a.drop_first());
    }
}

proof fn lemma_comps_lt_trans(a: Seq<Seq<char>>, b: Seq<Seq<char>>, c: Seq<Seq<char>>)
    requires
        comps_lt(a, b),
        comps_lt(b, c),
    ensures
        comps_lt(a, c),
    decreases a.len(),
{
    if a.len() > 0 && b.len() > 0 && c.len() > 0 {
        if comp_lt(a[0], b[0]) {
            if comp_lt(b[0], c[0]) {
                lemma_comp_lt_trans(a[0], b[0], c[0]);
            } else {
                assert(b[0] == c[0]);
            }
        } else {
            assert(a[0] == b[0]);
            if comp_lt(b[0], c[0]) {
            } else {
                assert(b[0] == c[0]);
                lemma_comps_lt_trans(a.drop_first(), b.drop_first(), c.drop_first());
            }
        }
    }
}

/// Law: no path sorts before itself.
pub proof fn law_path_order_irreflexive(a: Seq<char>)
    ensures
        !path_lt(a, a),
{
    lemma_comps_lt_irrefl(components(a));
}

/// Law: the path order is transitive.
pub proof fn law_path_order_transitive(a: Seq<char>, b: Seq<char>, c: Seq<char>)
    requires
        path_lt(a, b),
        path_lt(b, c),
    ensures
        path_lt(a, c),
{
    lemma_comps_lt_trans(components(a), components(b), components(c));
}

/// A copy of a list of strings.
pub fn clone_strings(v: &Vec<String>) -> (out: Vec<String>)
    ensures
        out@ == v@,
{
    let mut out: Vec<String> = Vec::new();
    let mut i: usize = 0;
    while i < v.len()
        invariant
            i <= v.len(),
            out@ == v@.take(i as int),
        decreases v.len() - i,
    {
        out.push(v[i].clone());
        proof {
            assert(v@.take(i + 1) =~= v@.take(i as int).push(v@[i as int]));
        }
        i += 1;
    }
    proof {
        assert(v@.take(v@.len() as int) =~= v@);
    }
    out
}

/// Whether adjacent entries never step backward in path order.
pub open spec fn sorted_paths(v: Seq<Seq<char>>) -> bool {
    forall|i: int| 0 <= i < v.len() - 1 ==> !path_lt(#[trigger] v[i + 1], v[i])
}

/// The selection in path order (as `BTreeSet<PathBuf>` iterates): each step
/// takes the first entry that no other remaining entry precedes.
pub fn sorted_selection(sel: &Vec<String>) -> (out: Vec<String>)
    ensures
        views(out@).to_multiset() == views(sel@).to_multiset(),
        out.len() == sel.len(),
        sorted_paths(views(out@)),
{
    let mut rest: Vec<String> = clone_strings(sel);
    let mut out: Vec<String> = Vec::new();
    proof {
        assert(views(out@) =~= Seq::<Seq<char>>::empty());
        views(out@).to_multiset_ensures();
        assert(views(out@).to_multiset() =~= Multiset::empty());
        assert(views(out@).to_multiset().add(views(rest@).to_multiset()) =~= views(rest@).to_multiset());
    }
    while rest.len() > 0
        invariant
            views(out@).to_multiset().add(views(rest@).to_multiset()) == views(sel@).to_multiset(),
            out.len() + rest.len() == sel.len(),
            sorted_paths(views(out@)),
            out.len() > 0 ==> forall|k: int| 0 <= k < rest.len() ==> !path_lt(#[trigger] views(rest@)[k], views(out@).last()),
        decreases rest.len(),
    {
        let mut m: usize = 0;
        let mut k: usize = 1;
        proof {
            law_path_order_irreflexive(views(rest@)[0]);
        }
        while k < rest.len()
            invariant
                m < k <= rest.len(),
                forall|j: int| 0 <= j < k ==> !path_lt(#[trigger] views(rest@)[j], views(rest@)[m as int]),
            decreases rest.len() - k,
        {
            if path_less(rest[k].as_str(), rest[m].as_str()) {
                proof {
                    let rv = views(rest@);
                    assert forall|j: int| 0 <= j < k + 1 implies !path_lt(#[trigger] rv[j], rv[k as int]) by {
                        if j < k {
                            if path_lt(rv[j], rv[k as int]) {
                                law_path_order_transitive(rv[j], rv[k as int], rv[m as int]);
                            }
                        } else {
                            law_path_order_irreflexive(rv[k as int]);
                        }
                    }
                }
                m = k;
            }
            k += 1;
        }
        let ghost rv = views(rest@);
        let ghost ov = views(out@);
        let picked = rest.remove(m);
        out.push(picked);
        proof {
            assert(views(rest@) =~= rv.remove(m as int));
            assert(views(out@) =~= ov.push(rv[m as int]));
            rv.to_multiset_ensures();
            ov.to_multiset_ensures();
            assert(views(out@).to_multiset().add(views(rest@).to_multiset()) =~= ov.to_multiset().add(rv.to_multiset()));
            let nv = views(out@);
            assert forall|i: int| 0 <= i < nv.len() - 1 implies !path_lt(#[trigger] nv[i + 1], nv[i]) by {
                if i + 1 == nv.len() - 1 {
                    assert(nv[i + 1] == rv[m as int]);
                    assert(nv[i] == ov.last());
                } else {
                    assert(nv[i] == ov[i] && nv[i + 1] == ov[i + 1]);
                }
            }
            assert forall|k2: int| 0 <= k2 < rest.len() implies !path_lt(#[trigger] views(rest@)[k2], views(out@).last()) by {
                let j = if k2 < m { k2 } else { k2 + 1 };
                assert(views(rest@)[k2] == rv[j]);
            }
        }
    }
    proof {
        assert(views(rest@) =~= Seq::<Seq<char>>::empty());
        views(rest@).to_multiset_ensures();
        assert(views(rest@).to_multiset() =~= Multiset::empty());
        assert(views(out@).to_multiset().add(Multiset::empty()) =~= views(out@).to_multiset());
    }
    out
}


proof fn lemma_comp_lt_total(x: Seq<char>, y: Seq<char>)
    requires
        x != y,
    ensures
        comp_lt(x, y) || comp_lt(y, x),
{
    if comp_rank(x) == 3 && comp_rank(y) == 3 {
        law_chars_order_total(x, y);
    }
}

proof fn lemma_comps_lt_total(a: Seq<Seq<char>>, b: Seq<Seq<char>>)
    requires
        a != b,
    ensures
        comps_lt(a, b) || comps_lt(b, a),
    decreases a.len(),
{
    if a.len() > 0 && b.len() > 0 {
        if a[0] == b[0] {
            if a.drop_first() == b.drop_first() {
                assert(a =~= seq![a[0]] + a.drop_first());
                assert(b =~= seq![b[0]] + b.drop_first());
            }
            lemma_comps_lt_total(a.drop_first(), b.drop_first());
        } else {
            lemma_comp_lt_total(a[0], b[0]);
        }
    } else if a.len() == 0 && b.len() == 0 {
        assert(a =~= b);
    }
}

/// Two paths neither of which sorts before the other are the same path.
pub proof fn lemma_path_order_total(a: Seq<char>, b: Seq<char>)
    requires
        !path_lt(a, b),
        !path_lt(b, a),
    ensures
        same_path(a, b),
{
    if components(a) != components(b) {
        lemma_comps_lt_total(components(a), components(b));
    }
}

/// "Not after" is transitive in the path order.
proof fn lemma_not_after_trans(x: Seq<char>, y: Seq<char>, z: Seq<char>)
    requires
        !path_lt(y, x),
        !path_lt(z, y),
    ensures
        !path_lt(z, x),
{
    if path_lt(z, x) {
        if same_path(y, z) {
            assert(path_lt(y, x));
        } else if path_lt(y, z) {
            law_path_order_transitive(y, z, x);
        } else {
            lemma_path_order_total(y, z);
        }
    }
}

/// In a sorted list no entry sorts before an earlier one.
proof fn lemma_sorted_pairwise(v: Seq<Seq<char>>, i: int, j: int)
    requires
        sorted_paths(v),
        0 <= i <= j < v.len(),
    ensures
        !path_lt(v[j], v[i]),
    decreases j - i,
{
    if i == j {
        law_path_order_irreflexive(v[i]);
    } else {
        lemma_sorted_pairwise(v, i, j - 1);
        assert(!path_lt(v[(j - 1) + 1], v[j - 1]));
        lemma_not_after_trans(v[i], v[j - 1], v[j]);
    }
}

/// Whether two lists hold the same paths at each position.
pub open spec fn same_path_list(a: Seq<Seq<char>>, b: Seq<Seq<char>>) -> bool {
    a.len() == b.len() && forall|i: int| 0 <= i < a.len() ==> same_path(#[trigger] a[i], b[i])
}

/// Whether no entry sorts before an earlier one.
pub open spec fn pairwise_sorted(v: Seq<Seq<char>>) -> bool {
    forall|i: int, j: int| 0 <= i <= j < v.len() ==> !path_lt(#[trigger] v[j], #[trigger] v[i])
}

proof fn lemma_sorted_lists_agree(a: Seq<Seq<char>>, b: Seq<Seq<char>>)
    requires
        a.to_multiset() == b.to_multiset(),
        pairwise_sorted(a),
        pairwise_sorted(b),
    ensures
        same_path_list(a, b),
    decreases a.len(),
{
    a.to_multiset_ensures();
    b.to_multiset_ensures();
    if a.len() == 0 {
        return;
    }
    let a0 = a[0];
    assert(a.contains(a0));
    assert(b.to_multiset().count(a0) > 0);
    assert(b.contains(a0));
    let k = choose|k: int| 0 <= k < b.len() && b[k] == a0;
    assert(b.contains(b[0]));
    assert(a.to_multiset().count(b[0]) > 0);
    assert(a.contains(b[0]));
    let j = choose|j: int| 0 <= j < a.len() && a[j] == b[0];
    assert(!path_lt(a[j], a[0]));
    assert(!path_lt(b[k], b[0]));
    lemma_path_order_total(a0, b[0]);
    assert forall|i: int| 0 <= i <= k implies same_path(#[trigger] b[i], a0) by {
        assert(!path_lt(b[k], b[i]));
        assert(!path_lt(b[i], b[0]));
        if path_lt(b[i], a0) {
            assert(components(a0) == components(b[0]));
            assert(path_lt(b[i], b[0]));
        }
        lemma_path_order_total(b[i], a0);
    }
    let a2 = a.remove(0);
    let b2 = b.remove(k);
    assert(a2.to_multiset() =~= a.to_multiset().remove(a[0]));
    assert(b2.to_multiset() =~= b.to_multiset().remove(b[k]));
    assert forall|x: int, y: int| 0 <= x <= y < a2.len() implies !path_lt(#[trigger] a2[y], #[trigger] a2[x]) by {
        assert(a2[x] == a[x + 1] && a2[y] == a[y + 1]);
    }
    assert forall|x: int, y: int| 0 <= x <= y < b2.len() implies !path_lt(#[trigger] b2[y], #[trigger] b2[x]) by {
        let x0 = if x < k { x } else { x + 1 };
        let y0 = if y < k { y } else { y + 1 };
        assert(b2[x] == b[x0] && b2[y] == b[y0]);
    }
    lemma_sorted_lists_agree(a2, b2);
    assert forall|i: int| 0 <= i < a.len() implies same_path(#[trigger] a[i], b[i]) by {
        if i > 0 {
            assert(a[i] == a2[i - 1]);
            assert(same_path(a2[i - 1], b2[i - 1]));
            if i - 1 < k {
                assert(b2[i - 1] == b[i - 1]);
                assert(same_path(b[i - 1], a0));
                assert(same_path(b[i], a0));
            } else {
                assert(b2[i - 1] == b[i]);
            }
        }
    }
}

/// Law: sorting puts lists that hold the same paths (in any order) into
/// the same order, so a sorted list of paths is an order-independent key.
pub proof fn law_sorted_key_order_independent(a: Seq<Seq<char>>, b: Seq<Seq<char>>)
    requires
        a.to_multiset() == b.to_multiset(),
        sorted_paths(a),
        sorted_paths(b),
    ensures
        same_path_list(a, b),
{
    assert forall|i: int, j: int| 0 <= i <= j < a.len() implies !path_lt(#[trigger] a[j], #[trigger] a[i]) by {
        lemma_sorted_pairwise(a, i, j);
    }
    assert forall|i: int, j: int| 0 <= i <= j < b.len() implies !path_lt(#[trigger] b[j], #[trigger] b[i]) by {
        lemma_sorted_pairwise(b, i, j);
    }
    lemma_sorted_lists_agree(a, b);
}
} // verus!
