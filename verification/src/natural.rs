//! Natural ordering of names (`tmp.2` before `tmp.10`) and the stable sort
//! that the passes order their names with.

use std::cmp::Ordering;
use vstd::prelude::*;

verus! {

/// How `natord::compare` orders two texts: -1 where the left one comes
/// first, 0 where neither does, 1 where the right one comes first.
pub uninterp spec fn natural_order(left: Seq<char>, right: Seq<char>) -> int;

/// Compares two names with `natord::compare`. The result is that function's
/// answer for the two texts, written as -1, 0 or 1 for `Less`, `Equal` and
/// `Greater`.
#[verifier::external_body]
pub(crate) fn natural_compare(left: &String, right: &String) -> (r: i8)
    ensures
        r == natural_order(left@, right@),
{
    match natord::compare(left, right) {
        Ordering::Less => -1,
        Ordering::Equal => 0,
        Ordering::Greater => 1,
    }
}

/// `s` with `x` put behind the last element that does not come after it.
pub open spec fn insert_sorted(s: Seq<Seq<char>>, x: Seq<char>) -> Seq<Seq<char>>
    decreases s.len(),
{
    if s.len() == 0 {
        seq![x]
    } else if natural_order(s.last(), x) > 0 {
        insert_sorted(s.drop_last(), x).push(s.last())
    } else {
        s.push(x)
    }
}

/// The names of `s` in natural order: each in turn is put into the sorted
/// names before it, behind every name that does not come after it.
pub open spec fn natural_sort_spec(s: Seq<Seq<char>>) -> Seq<Seq<char>>
    decreases s.len(),
{
    if s.len() == 0 {
        Seq::empty()
    } else {
        insert_sorted(natural_sort_spec(s.drop_last()), s.last())
    }
}

/// The names of `s` without repetitions, each where it first occurs.
pub open spec fn dedup_spec(s: Seq<Seq<char>>) -> Seq<Seq<char>>
    decreases s.len(),
{
    if s.len() == 0 {
        Seq::empty()
    } else {
        let d = dedup_spec(s.drop_last());
        if d.contains(s.last()) {
            d
        } else {
            d.push(s.last())
        }
    }
}

/// The texts of a sequence of names, in order.
pub open spec fn names_view(v: Seq<String>) -> Seq<Seq<char>> {
    Seq::new(v.len(), |i: int| v[i]@)
}

/// Inserting keeps every name and adds exactly the new one.
pub proof fn lemma_insert_sorted(s: Seq<Seq<char>>, x: Seq<char>)
    ensures
        insert_sorted(s, x).len() == s.len() + 1,
        forall|y: Seq<char>|
            #![trigger insert_sorted(s, x).contains(y)]
            #![trigger s.contains(y)]
            insert_sorted(s, x).contains(y) <==> (s.contains(y) || y == x),
        s.no_duplicates() && !s.contains(x) ==> insert_sorted(s, x).no_duplicates(),
    decreases s.len(),
{
    let r = insert_sorted(s, x);
    if s.len() == 0 {
        assert(r[0] == x);
        assert forall|y: Seq<char>| r.contains(y) <==> (s.contains(y) || y == x) by {
            if r.contains(y) {
                let i = choose|i: int| 0 <= i < r.len() && r[i] == y;
            }
        }
    } else if natural_order(s.last(), x) > 0 {
        let front = s.drop_last();
        let inner = insert_sorted(front, x);
        lemma_insert_sorted(front, x);
        assert forall|y: Seq<char>| r.contains(y) <==> (s.contains(y) || y == x) by {
            if r.contains(y) {
                let i = choose|i: int| 0 <= i < r.len() && r[i] == y;
                if i < inner.len() {
                    assert(inner.contains(y));
                    if front.contains(y) {
                        let j = choose|j: int| 0 <= j < front.len() && front[j] == y;
                        assert(s[j] == y);
                    }
                } else {
                    assert(s[s.len() - 1] == y);
                }
            }
            if s.contains(y) {
                let j = choose|j: int| 0 <= j < s.len() && s[j] == y;
                if j < front.len() {
                    assert(front[j] == y);
                    assert(inner.contains(y));
                    let i = choose|i: int| 0 <= i < inner.len() && inner[i] == y;
                    assert(r[i] == y);
                } else {
                    assert(r[r.len() - 1] == y);
                }
            }
            if y == x {
                assert(inner.contains(x));
                let i = choose|i: int| 0 <= i < inner.len() && inner[i] == x;
                assert(r[i] == x);
            }
        }
        if s.no_duplicates() && !s.contains(x) {
            assert(front.no_duplicates());
            assert(!front.contains(x)) by {
                if front.contains(x) {
                    let j = choose|j: int| 0 <= j < front.len() && front[j] == x;
                    assert(s[j] == x);
                }
            }
            assert(!inner.contains(s.last())) by {
                if front.contains(s.last()) {
                    let j = choose|j: int| 0 <= j < front.len() && front[j] == s.last();
                    assert(s[j] == s[s.len() - 1]);
                }
                assert(s[s.len() - 1] == s.last());
            }
            assert forall|i: int, j: int| 0 <= i < r.len() && 0 <= j < r.len() && i != j implies r[i]
                != r[j] by {
                if i < inner.len() && j < inner.len() {
                } else if i < inner.len() {
                    assert(inner.contains(r[i]));
                } else {
                    assert(inner.contains(r[j]));
                }
            }
        }
    } else {
        assert forall|y: Seq<char>| r.contains(y) <==> (s.contains(y) || y == x) by {
            if r.contains(y) {
                let i = choose|i: int| 0 <= i < r.len() && r[i] == y;
                if i < s.len() {
                    assert(s[i] == y);
                }
            }
            if s.contains(y) {
                let j = choose|j: int| 0 <= j < s.len() && s[j] == y;
                assert(r[j] == y);
            }
            if y == x {
                assert(r[s.len() as int] == x);
            }
        }
        if s.no_duplicates() && !s.contains(x) {
            assert forall|i: int, j: int| 0 <= i < r.len() && 0 <= j < r.len() && i != j implies r[i]
                != r[j] by {
                if i < s.len() && j < s.len() {
                } else if i < s.len() {
                    assert(s.contains(r[i]));
                } else {
                    assert(s.contains(r[j]));
                }
            }
        }
    }
}

/// Sorting rearranges: the sorted names are as many as before, they are the
/// same names, and names that were all different stay so.
pub proof fn lemma_natural_sort(s: Seq<Seq<char>>)
    ensures
        natural_sort_spec(s).len() == s.len(),
        forall|y: Seq<char>|
            #![trigger natural_sort_spec(s).contains(y)]
            #![trigger s.contains(y)]
            natural_sort_spec(s).contains(y) <==> s.contains(y),
        s.no_duplicates() ==> natural_sort_spec(s).no_duplicates(),
    decreases s.len(),
{
    if s.len() > 0 {
        let front = s.drop_last();
        lemma_natural_sort(front);
        lemma_insert_sorted(natural_sort_spec(front), s.last());
        let r = natural_sort_spec(s);
        assert forall|y: Seq<char>| r.contains(y) <==> s.contains(y) by {
            if s.contains(y) {
                let j = choose|j: int| 0 <= j < s.len() && s[j] == y;
                if j < front.len() {
                    assert(front[j] == y);
                }
            }
            if front.contains(y) {
                let j = choose|j: int| 0 <= j < front.len() && front[j] == y;
                assert(s[j] == y);
            }
            if y == s.last() {
                assert(s[s.len() - 1] == y);
            }
        }
        if s.no_duplicates() {
            assert(front.no_duplicates());
            assert(!front.contains(s.last())) by {
                if front.contains(s.last()) {
                    let j = choose|j: int| 0 <= j < front.len() && front[j] == s.last();
                    assert(s[j] == s[s.len() - 1]);
                }
            }
        }
    } else {
        assert forall|y: Seq<char>| !s.contains(y) by {}
    }
}

/// Removing repetitions keeps every name once.
pub proof fn lemma_dedup(s: Seq<Seq<char>>)
    ensures
        dedup_spec(s).no_duplicates(),
        dedup_spec(s).len() <= s.len(),
        forall|y: Seq<char>|
            #![trigger dedup_spec(s).contains(y)]
            #![trigger s.contains(y)]
            dedup_spec(s).contains(y) <==> s.contains(y),
    decreases s.len(),
{
    if s.len() > 0 {
        let front = s.drop_last();
        let d = dedup_spec(front);
        let r = dedup_spec(s);
        lemma_dedup(front);
        assert forall|y: Seq<char>| r.contains(y) <==> s.contains(y) by {
            if s.contains(y) {
                let j = choose|j: int| 0 <= j < s.len() && s[j] == y;
                if j < front.len() {
                    assert(front[j] == y);
                    assert(d.contains(y));
                    let i = choose|i: int| 0 <= i < d.len() && d[i] == y;
                    assert(r[i] == y);
                } else {
                    if !d.contains(s.last()) {
                        assert(r[r.len() - 1] == y);
                    }
                }
            }
            if r.contains(y) {
                let i = choose|i: int| 0 <= i < r.len() && r[i] == y;
                if i < d.len() {
                    assert(d[i] == y);
                    assert(d.contains(y));
                    let j = choose|j: int| 0 <= j < front.len() && front[j] == y;
                    assert(s[j] == y);
                } else {
                    assert(s[s.len() - 1] == y);
                }
            }
        }
        if !d.contains(s.last()) {
            assert forall|i: int, j: int| 0 <= i < r.len() && 0 <= j < r.len() && i != j implies r[i]
                != r[j] by {
                if i < d.len() && j < d.len() {
                } else if i < d.len() {
                    assert(d.contains(r[i]));
                } else {
                    assert(d.contains(r[j]));
                }
            }
        }
    } else {
        assert forall|y: Seq<char>| !s.contains(y) by {}
    }
}

/// Where the first of `keys` that is `name` stands, looking from `from` on.
pub open spec fn find_name(keys: Seq<Seq<char>>, name: Seq<char>, from: int) -> Option<int>
    decreases keys.len() - from,
{
    if from < 0 || from >= keys.len() {
        None
    } else if keys[from] == name {
        Some(from)
    } else {
        find_name(keys, name, from + 1)
    }
}

/// Where a name is found, it stands, and no earlier key is that name.
pub proof fn lemma_find_name(keys: Seq<Seq<char>>, name: Seq<char>, from: int)
    requires
        0 <= from,
    ensures
        match find_name(keys, name, from) {
            Some(i) => from <= i < keys.len() && keys[i] == name && forall|j: int|
                from <= j < i ==> keys[j] != name,
            None => forall|j: int| from <= j < keys.len() ==> keys[j] != name,
        },
    decreases keys.len() - from,
{
    if from < keys.len() && keys[from] != name {
        lemma_find_name(keys, name, from + 1);
    }
}

/// A copy of a list of texts.
pub fn clone_names(v: &Vec<String>) -> (r: Vec<String>)
    ensures
        names_view(r@) == names_view(v@),
{
    let mut out: Vec<String> = Vec::new();
    let mut i: usize = 0;
    while i < v.len()
        invariant
            i <= v.len(),
            out@.len() == i,
            forall|j: int| 0 <= j < i ==> out@[j]@ == v@[j]@,
        decreases v.len() - i,
    {
        out.push(v[i].clone());
        i += 1;
    }
    assert(names_view(out@) =~= names_view(v@));
    out
}

/// Whether `name` is among `names`.
pub fn has_name(names: &Vec<String>, name: &String) -> (r: bool)
    ensures
        r == names_view(names@).contains(name@),
{
    let mut i: usize = 0;
    while i < names.len()
        invariant
            i <= names.len(),
            forall|j: int| 0 <= j < i ==> names_view(names@)[j] != name@,
        decreases names.len() - i,
    {
        if names[i] == *name {
            assert(names_view(names@)[i as int] == name@);
            return true;
        }
        i += 1;
    }
    false
}

/// The names without repetitions, each where it first occurs.
pub fn dedup_names(names: &Vec<String>) -> (r: Vec<String>)
    ensures
        names_view(r@) == dedup_spec(names_view(names@)),
{
    let mut out: Vec<String> = Vec::new();
    let mut i: usize = 0;
    assert(names_view(names@).take(0) =~= Seq::empty());
    assert(names_view(out@) =~= Seq::empty());
    while i < names.len()
        invariant
            i <= names.len(),
            names_view(out@) == dedup_spec(names_view(names@).take(i as int)),
        decreases names.len() - i,
    {
        let ghost all = names_view(names@);
        assert(all.take(i + 1).drop_last() =~= all.take(i as int));
        assert(all.take(i + 1).last() == names@[i as int]@);
        if !has_name(&out, &names[i]) {
            let ghost before = names_view(out@);
            out.push(names[i].clone());
            assert(names_view(out@) =~= before.push(names@[i as int]@));
        }
        i += 1;
    }
    assert(names_view(names@).take(i as int) =~= names_view(names@));
    out
}

/// Where a name goes among sorted names, given how each of them compares
/// with it (more than 0: it comes after the name): behind the last one
/// that does not come after the name.
pub open spec fn insertion_point_spec(outcomes: Seq<i8>) -> nat
    decreases outcomes.len(),
{
    if outcomes.len() == 0 {
        0
    } else if outcomes.last() > 0 {
        insertion_point_spec(outcomes.drop_last())
    } else {
        outcomes.len()
    }
}

/// How each of the names compares with `x`.
pub open spec fn is_outcomes_of(outcomes: Seq<i8>, s: Seq<Seq<char>>, x: Seq<char>) -> bool {
    outcomes.len() == s.len() && forall|j: int|
        0 <= j < s.len() ==> #[trigger] outcomes[j] == natural_order(s[j], x)
}

/// Putting a name among sorted names puts it at its insertion point.
pub proof fn lemma_insertion_point(s: Seq<Seq<char>>, x: Seq<char>, outcomes: Seq<i8>)
    requires
        is_outcomes_of(outcomes, s, x),
    ensures
        insertion_point_spec(outcomes) <= s.len(),
        insert_sorted(s, x) == s.insert(insertion_point_spec(outcomes) as int, x),
    decreases s.len(),
{
    if s.len() == 0 {
        assert(insert_sorted(s, x) =~= s.insert(0, x));
    } else if natural_order(s.last(), x) > 0 {
        let front = s.drop_last();
        let fewer = outcomes.drop_last();
        assert(outcomes.last() == outcomes[s.len() - 1]);
        assert forall|j: int| 0 <= j < front.len() implies #[trigger] fewer[j] == natural_order(
            front[j],
            x,
        ) by {
            assert(fewer[j] == outcomes[j]);
        }
        lemma_insertion_point(front, x, fewer);
        let p = insertion_point_spec(fewer) as int;
        assert(front.insert(p, x).push(s.last()) =~= s.insert(p, x));
    } else {
        assert(outcomes.last() == outcomes[s.len() - 1]);
        assert(s.push(x) =~= s.insert(s.len() as int, x));
    }
}

/// Where a name goes among sorted names, given how each of them compares
/// with it: behind the last one that does not come after it, so that
/// every name behind that place comes after it.
pub fn insertion_point(outcomes: &Vec<i8>) -> (r: usize)
    ensures
        r == insertion_point_spec(outcomes@),
        r <= outcomes@.len(),
        forall|j: int| r <= j < outcomes@.len() ==> outcomes@[j] > 0,
        r > 0 ==> outcomes@[r - 1] <= 0,
{
    let mut j: usize = outcomes.len();
    assert(outcomes@.take(j as int) =~= outcomes@);
    while j > 0 && outcomes[j - 1] > 0
        invariant
            j <= outcomes@.len(),
            insertion_point_spec(outcomes@) == insertion_point_spec(outcomes@.take(j as int)),
            forall|k: int| j <= k < outcomes@.len() ==> outcomes@[k] > 0,
        decreases j,
    {
        let ghost head = outcomes@.take(j as int);
        assert(head.last() == outcomes@[j - 1]);
        assert(head.drop_last() =~= outcomes@.take(j - 1));
        j -= 1;
    }
    proof {
        let head = outcomes@.take(j as int);
        if j > 0 {
            assert(head.last() == outcomes@[j - 1]);
        }
    }
    j
}

/// How each of the names compares with `name`.
fn compare_all(names: &Vec<String>, name: &String) -> (r: Vec<i8>)
    ensures
        is_outcomes_of(r@, names_view(names@), name@),
{
    let mut outcomes: Vec<i8> = Vec::new();
    let mut j: usize = 0;
    while j < names.len()
        invariant
            j <= names.len(),
            outcomes@.len() == j,
            forall|k: int|
                0 <= k < j ==> #[trigger] outcomes@[k] == natural_order(names@[k]@, name@),
        decreases names.len() - j,
    {
        outcomes.push(natural_compare(&names[j], name));
        j += 1;
    }
    outcomes
}

/// The names in natural order (a stable insertion sort under
/// `natord::compare`).
pub fn natural_sort(names: &Vec<String>) -> (r: Vec<String>)
    ensures
        names_view(r@) == natural_sort_spec(names_view(names@)),
        names_view(r@).to_multiset() == names_view(names@).to_multiset(),
{
    proof {
        lemma_natural_sort_permutes(names_view(names@));
    }
    let mut out: Vec<String> = Vec::new();
    let mut i: usize = 0;
    assert(names_view(names@).take(0) =~= Seq::empty());
    assert(names_view(out@) =~= Seq::empty());
    while i < names.len()
        invariant
            i <= names.len(),
            names_view(out@) == natural_sort_spec(names_view(names@).take(i as int)),
        decreases names.len() - i,
    {
        let ghost all = names_view(names@);
        let ghost sorted = names_view(out@);
        let ghost x = names@[i as int]@;
        assert(all.take(i + 1).drop_last() =~= all.take(i as int));
        assert(all.take(i + 1).last() == x);
        let outcomes = compare_all(&out, &names[i]);
        let j = insertion_point(&outcomes);
        proof {
            lemma_insertion_point(sorted, x, outcomes@);
        }
        out.insert(j, names[i].clone());
        assert(names_view(out@) =~= sorted.insert(j as int, x));
        i += 1;
    }
    assert(names_view(names@).take(i as int) =~= names_view(names@));
    out
}

/// Sorting is a rearrangement: every name comes out as often as it went in.
pub proof fn lemma_natural_sort_permutes(s: Seq<Seq<char>>)
    ensures
        natural_sort_spec(s).to_multiset() == s.to_multiset(),
    decreases s.len(),
{
    if s.len() > 0 {
        let front = s.drop_last();
        lemma_natural_sort_permutes(front);
        lemma_insert_sorted_permutes(natural_sort_spec(front), s.last());
        vstd::seq_lib::to_multiset_build(front, s.last());
        assert(front.push(s.last()) =~= s);
    } else {
        assert(natural_sort_spec(s) =~= s);
    }
}

proof fn lemma_insert_sorted_permutes(s: Seq<Seq<char>>, x: Seq<char>)
    ensures
        insert_sorted(s, x).to_multiset() == s.to_multiset().insert(x),
    decreases s.len(),
{
    if s.len() == 0 {
        assert(insert_sorted(s, x) =~= s.push(x));
        vstd::seq_lib::to_multiset_build(s, x);
    } else if natural_order(s.last(), x) > 0 {
        let front = s.drop_last();
        lemma_insert_sorted_permutes(front, x);
        vstd::seq_lib::to_multiset_build(insert_sorted(front, x), s.last());
        vstd::seq_lib::to_multiset_build(front, s.last());
        assert(front.push(s.last()) =~= s);
        assert(front.to_multiset().insert(x).insert(s.last()) =~= front.to_multiset().insert(
            s.last(),
        ).insert(x));
    } else {
        vstd::seq_lib::to_multiset_build(s, x);
    }
}

} // verus!
