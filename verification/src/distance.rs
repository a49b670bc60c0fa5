//! How far two sequences are apart, counted in single-element edits.
use vstd::prelude::*;

verus! {

/// The Levenshtein distance: the smallest number of insertions, deletions and
/// substitutions of single elements that turn `a` into `b`.
pub open spec fn distance<T>(a: Seq<T>, b: Seq<T>) -> nat
    decreases a.len() + b.len(),
{
    if a.len() == 0 {
        b.len()
    } else if b.len() == 0 {
        a.len()
    } else {
        let substitution = distance(a.drop_last(), b.drop_last()) + (if a.last() == b.last() {
            0nat
        } else {
            1nat
        });
        let insertion = distance(a, b.drop_last()) + 1;
        let deletion = distance(a.drop_last(), b) + 1;
        least(substitution, least(insertion, deletion))
    }
}

pub open spec fn least(x: nat, y: nat) -> nat {
    if x <= y {
        x
    } else {
        y
    }
}

/// The distance depends only on which elements are equal.
pub proof fn lemma_distance_same<T, U>(a: Seq<T>, b: Seq<T>, x: Seq<U>, y: Seq<U>)
    requires
        a.len() == x.len(),
        b.len() == y.len(),
        forall|i: int, j: int|
            #![trigger a[i], b[j]]
            0 <= i < a.len() && 0 <= j < b.len() ==> (a[i] == b[j]) == (x[i] == y[j]),
    ensures
        distance(a, b) == distance(x, y),
    decreases a.len() + b.len(),
{
    if a.len() > 0 && b.len() > 0 {
        lemma_distance_same(a.drop_last(), b.drop_last(), x.drop_last(), y.drop_last());
        lemma_distance_same(a, b.drop_last(), x, y.drop_last());
        lemma_distance_same(a.drop_last(), b, x.drop_last(), y);
        assert((a.last() == b.last()) == (x.last() == y.last()));
    }
}

/// Whether exactly one substitution, insertion or deletion of an element turns
/// `a` into `b`.
pub open spec fn one_edit<T>(a: Seq<T>, b: Seq<T>) -> bool {
    ||| exists|i: int|
        0 <= i < a.len() && a.len() == b.len() && a[i] != b[i] && #[trigger] a.update(i, b[i]) == b
    ||| exists|i: int| 0 <= i < b.len() && #[trigger] b.remove(i) == a
    ||| exists|i: int| 0 <= i < a.len() && #[trigger] a.remove(i) == b
}

// ---------------------------------------------------------------------------
// Bounds
// ---------------------------------------------------------------------------

/// The distance is at least the difference of the lengths and at most the
/// larger length.
pub proof fn lemma_distance_bounds<T>(a: Seq<T>, b: Seq<T>)
    ensures
        a.len() <= b.len() + distance(a, b),
        b.len() <= a.len() + distance(a, b),
        distance(a, b) <= a.len() || distance(a, b) <= b.len(),
    decreases a.len() + b.len(),
{
    if a.len() > 0 && b.len() > 0 {
        lemma_distance_bounds(a.drop_last(), b.drop_last());
        lemma_distance_bounds(a, b.drop_last());
        lemma_distance_bounds(a.drop_last(), b);
    }
}

/// Every row of the table of distances between prefixes holds an entry that is
/// no larger than the distance of the whole sequences.
proof fn lemma_row<T>(a: Seq<T>, b: Seq<T>, i: int) -> (j: int)
    requires
        0 <= i <= a.len(),
    ensures
        0 <= j <= b.len(),
        distance(a.take(i), b.take(j)) <= distance(a, b),
    decreases a.len() + b.len(),
{
    if i == a.len() {
        assert(a.take(i) =~= a);
        assert(b.take(b.len() as int) =~= b);
        b.len() as int
    } else if b.len() == 0 {
        assert(b.take(0) =~= b);
        if i == 0 {
            assert(a.take(0) =~= Seq::<T>::empty());
        }
        0
    } else {
        let (a1, b1) = (a.drop_last(), b.drop_last());
        assert(a1.take(i) =~= a.take(i));
        if distance(a, b) >= distance(a1, b1) {
            let j = lemma_row(a1, b1, i);
            assert(b1.take(j) =~= b.take(j));
            j
        } else if distance(a, b) == distance(a, b1) + 1 {
            let j = lemma_row(a, b1, i);
            assert(b1.take(j) =~= b.take(j));
            j
        } else {
            lemma_row(a1, b, i)
        }
    }
}

// ---------------------------------------------------------------------------
// Distance one
// ---------------------------------------------------------------------------

/// The distance is zero exactly between equal sequences.
pub proof fn law_distance_zero<T>(a: Seq<T>, b: Seq<T>)
    ensures
        distance(a, b) == 0 <==> a == b,
    decreases a.len() + b.len(),
{
    if a.len() == 0 || b.len() == 0 {
        if distance(a, b) == 0 {
            assert(a =~= b);
        }
    } else {
        law_distance_zero(a.drop_last(), b.drop_last());
        if distance(a, b) == 0 {
            assert(a =~= a.drop_last().push(a.last()));
            assert(b =~= b.drop_last().push(b.last()));
        }
    }
}

proof fn lemma_one_edit_near<T>(a: Seq<T>, b: Seq<T>)
    requires
        one_edit(a, b),
    ensures
        distance(a, b) <= 1,
    decreases a.len() + b.len(),
{
    if a.len() > 0 && b.len() > 0 {
        let (a1, b1) = (a.drop_last(), b.drop_last());
        law_distance_zero(a1, b1);
        law_distance_zero(a, b1);
        law_distance_zero(a1, b);
        if exists|i: int|
            0 <= i < a.len() && a.len() == b.len() && a[i] != b[i] && #[trigger] a.update(i, b[i])
                == b {
            let i = choose|i: int|
                0 <= i < a.len() && a.len() == b.len() && a[i] != b[i] && #[trigger] a.update(
                    i,
                    b[i],
                ) == b;
            if i == a.len() - 1 {
                assert(a1 =~= b1) by {
                    assert forall|k: int| 0 <= k < a1.len() implies a1[k] == b1[k] by {
                        assert(a.update(i, b[i])[k] == a[k]);
                    }
                }
            } else {
                assert(a.update(i, b[i]).last() == a.last());
                assert(a1.update(i, b1[i]) =~= b1) by {
                    assert forall|k: int| 0 <= k < a1.len() implies a1.update(i, b1[i])[k]
                        == b1[k] by {
                        assert(a.update(i, b[i])[k] == b[k]);
                    }
                }
                lemma_one_edit_near(a1, b1);
            }
        } else if exists|i: int| 0 <= i < b.len() && #[trigger] b.remove(i) == a {
            let i = choose|i: int| 0 <= i < b.len() && #[trigger] b.remove(i) == a;
            if i == b.len() - 1 {
                assert(b.remove(i) =~= b1);
            } else {
                assert(b.remove(i).last() == b.last());
                assert(b1.remove(i) =~= b.remove(i).drop_last());
                lemma_one_edit_near(a1, b1);
            }
        } else {
            let i = choose|i: int| 0 <= i < a.len() && #[trigger] a.remove(i) == b;
            if i == a.len() - 1 {
                assert(a.remove(i) =~= a1);
            } else {
                assert(a.remove(i).last() == a.last());
                assert(a1.remove(i) =~= a.remove(i).drop_last());
                lemma_one_edit_near(a1, b1);
            }
        }
    }
}

proof fn lemma_one_edit_differs<T>(a: Seq<T>, b: Seq<T>)
    requires
        one_edit(a, b),
    ensures
        a != b,
{
    if a == b {
        if exists|i: int| 0 <= i < b.len() && #[trigger] b.remove(i) == a {
            let i = choose|i: int| 0 <= i < b.len() && #[trigger] b.remove(i) == a;
            assert(b.remove(i).len() == b.len() - 1);
        }
        if exists|i: int| 0 <= i < a.len() && #[trigger] a.remove(i) == b {
            let i = choose|i: int| 0 <= i < a.len() && #[trigger] a.remove(i) == b;
            assert(a.remove(i).len() == a.len() - 1);
        }
    }
}

proof fn lemma_near_one_edit<T>(a: Seq<T>, b: Seq<T>)
    requires
        distance(a, b) == 1,
    ensures
        one_edit(a, b),
    decreases a.len() + b.len(),
{
    if a.len() == 0 {
        assert(b.remove(0) =~= a);
    } else if b.len() == 0 {
        assert(a.remove(0) =~= b);
    } else {
        let (a1, b1) = (a.drop_last(), b.drop_last());
        law_distance_zero(a1, b1);
        law_distance_zero(a, b1);
        law_distance_zero(a1, b);
        if distance(a, b1) == 0 {
            assert(b.remove(b.len() - 1) =~= a);
        } else if distance(a1, b) == 0 {
            assert(a.remove(a.len() - 1) =~= b);
        } else if a.last() != b.last() {
            let i = a.len() - 1;
            assert(a1 == b1);
            assert(a.update(i, b[i]) =~= b) by {
                assert forall|k: int| 0 <= k < i implies a[k] == b[k] by {
                    assert(a1[k] == b1[k]);
                }
            }
        } else {
            lemma_near_one_edit(a1, b1);
            assert(a =~= a1.push(a.last()));
            assert(b =~= b1.push(b.last()));
            if exists|i: int|
                0 <= i < a1.len() && a1.len() == b1.len() && a1[i] != b1[i] && #[trigger] a1.update(
                    i,
                    b1[i],
                ) == b1 {
                let i = choose|i: int|
                    0 <= i < a1.len() && a1.len() == b1.len() && a1[i] != b1[i]
                        && #[trigger] a1.update(i, b1[i]) == b1;
                assert(a.update(i, b[i]) =~= a1.update(i, b1[i]).push(a.last()));
            } else if exists|i: int| 0 <= i < b1.len() && #[trigger] b1.remove(i) == a1 {
                let i = choose|i: int| 0 <= i < b1.len() && #[trigger] b1.remove(i) == a1;
                assert(b.remove(i) =~= b1.remove(i).push(b.last()));
            } else {
                let i = choose|i: int| 0 <= i < a1.len() && #[trigger] a1.remove(i) == b1;
                assert(a.remove(i) =~= a1.remove(i).push(a.last()));
            }
        }
    }
}

/// One edit apart is the same as distance one.
pub proof fn law_one_edit_is_distance_one<T>(a: Seq<T>, b: Seq<T>)
    ensures
        one_edit(a, b) <==> distance(a, b) == 1,
{
    if one_edit(a, b) {
        lemma_one_edit_near(a, b);
        lemma_one_edit_differs(a, b);
        law_distance_zero(a, b);
    }
    if distance(a, b) == 1 {
        lemma_near_one_edit(a, b);
    }
}

// ---------------------------------------------------------------------------
// Measuring
// ---------------------------------------------------------------------------

/// Whether `actual` is at most `maximum` edits away from `expected`.
pub fn edit_distance_at_most(actual: &[u8], expected: &[u8], maximum: usize) -> (r: bool)
    ensures
        r == (distance(actual@, expected@) <= maximum),
{
    let ghost (a, b) = (actual@, expected@);
    proof {
        lemma_distance_bounds(a, b);
    }
    let apart: usize = if actual.len() > expected.len() {
        actual.len() - expected.len()
    } else {
        expected.len() - actual.len()
    };
    if apart > maximum {
        return false;
    }
    let mut previous: Vec<usize> = Vec::new();
    for column in 0..expected.len()
        invariant
            previous@.len() == column,
            forall|j: int| 0 <= j < column ==> #[trigger] previous@[j] == j,
    {
        previous.push(column);
    }
    previous.push(expected.len());
    proof {
        assert forall|j: int| 0 <= j <= b.len() implies #[trigger] previous@[j] == distance(
            a.take(0),
            b.take(j),
        ) by {
            assert(a.take(0) =~= Seq::<u8>::empty());
        }
    }
    for row in 0..actual.len()
        invariant
            a == actual@,
            b == expected@,
            a.len() <= usize::MAX,
            b.len() <= usize::MAX,
            previous@.len() == b.len() + 1,
            forall|j: int|
                0 <= j <= b.len() ==> #[trigger] previous@[j] == distance(
                    a.take(row as int),
                    b.take(j),
                ),
    {
        let mut current: Vec<usize> = Vec::new();
        current.push(row + 1);
        let mut smallest: usize = row + 1;
        proof {
            assert(b.take(0) =~= Seq::<u8>::empty());
            assert(current@[0] == distance(a.take(row + 1), b.take(0)));
        }
        for column in 0..expected.len()
            invariant
                a == actual@,
                b == expected@,
                row < a.len() <= usize::MAX,
                b.len() <= usize::MAX,
                previous@.len() == b.len() + 1,
                forall|j: int|
                    0 <= j <= b.len() ==> #[trigger] previous@[j] == distance(
                        a.take(row as int),
                        b.take(j),
                    ),
                current@.len() == column + 1,
                forall|j: int|
                    0 <= j <= column ==> #[trigger] current@[j] == distance(
                        a.take(row + 1),
                        b.take(j),
                    ),
                forall|j: int| 0 <= j <= column ==> smallest <= #[trigger] current@[j],
                exists|j: int| 0 <= j <= column && smallest == #[trigger] current@[j],
        {
            let ghost (x, y) = (a.take(row + 1), b.take(column + 1));
            proof {
                assert(x.drop_last() =~= a.take(row as int));
                assert(y.drop_last() =~= b.take(column as int));
                assert(previous@[column as int] == distance(x.drop_last(), y.drop_last()));
                assert(previous@[column + 1] == distance(x.drop_last(), y));
                assert(current@[column as int] == distance(x, y.drop_last()));
                lemma_distance_bounds(x.drop_last(), y.drop_last());
                lemma_distance_bounds(x.drop_last(), y);
                lemma_distance_bounds(x, y.drop_last());
                lemma_distance_bounds(x, y);
            }
            let changed: usize = if actual[row] != expected[column] {
                1
            } else {
                0
            };
            let substitution: usize = previous[column].saturating_add(changed);
            let insertion: usize = current[column].saturating_add(1);
            let deletion: usize = previous[column + 1].saturating_add(1);
            let mut entry: usize = substitution;
            if insertion < entry {
                entry = insertion;
            }
            if deletion < entry {
                entry = deletion;
            }
            proof {
                assert(entry == distance(x, y));
            }
            let ghost before = current@;
            let ghost low = choose|j: int| 0 <= j <= column && smallest == #[trigger] current@[j];
            current.push(entry);
            proof {
                assert(forall|j: int| 0 <= j <= column ==> current@[j] == before[j]);
                assert(current@[column + 1] == entry);
                assert(current@[low] == before[low]);
            }
            if entry < smallest {
                smallest = entry;
            }
        }
        if smallest > maximum {
            proof {
                let j = lemma_row(a, b, row + 1);
                assert(smallest <= current@[j]);
            }
            return false;
        }
        previous = current;
    }
    proof {
        assert(a.take(a.len() as int) =~= a);
        assert(b.take(b.len() as int) =~= b);
    }
    previous[expected.len()] <= maximum
}

proof fn lemma_code(a: char, b: char)
    ensures
        (a as u32 == b as u32) == (a == b),
{
}

fn ascii_bytes(s: &[char]) -> (r: Vec<u8>)
    requires
        forall|i: int| 0 <= i < s@.len() ==> (#[trigger] s@[i]) as u32 <= 0x7f,
    ensures
        r@.len() == s@.len(),
        forall|i: int| 0 <= i < s@.len() ==> #[trigger] r@[i] == s@[i] as u32,
{
    let mut out: Vec<u8> = Vec::new();
    for i in 0..s.len()
        invariant
            forall|i: int| 0 <= i < s@.len() ==> (#[trigger] s@[i]) as u32 <= 0x7f,
            out@.len() == i,
            forall|k: int| 0 <= k < i ==> #[trigger] out@[k] == s@[k] as u32,
    {
        let code: u32 = s[i] as u32;
        out.push(code as u8);
    }
    out
}

/// Whether one ASCII text is at most `maximum` edits away from another.
pub fn ascii_distance_at_most(found: &[char], expected: &[char], maximum: usize) -> (r: bool)
    requires
        forall|i: int| 0 <= i < found@.len() ==> (#[trigger] found@[i]) as u32 <= 0x7f,
        forall|i: int| 0 <= i < expected@.len() ==> (#[trigger] expected@[i]) as u32 <= 0x7f,
    ensures
        r == (distance(found@, expected@) <= maximum),
{
    let actual = ascii_bytes(found);
    let wanted = ascii_bytes(expected);
    proof {
        assert forall|i: int, j: int|
            #![trigger actual@[i], wanted@[j]]
            0 <= i < actual@.len() && 0 <= j < wanted@.len() implies (actual@[i] == wanted@[j]) == (
        found@[i] == expected@[j]) by {
            assert(actual@[i] == found@[i] as u32);
            assert(wanted@[j] == expected@[j] as u32);
            lemma_code(found@[i], expected@[j]);
        }
        lemma_distance_same(actual@, wanted@, found@, expected@);
    }
    edit_distance_at_most(actual.as_slice(), wanted.as_slice(), maximum)
}

/// The length of the longest common prefix.
fn common_prefix(a: &[u8], b: &[u8]) -> (n: usize)
    ensures
        n <= a@.len(),
        n <= b@.len(),
        forall|k: int| 0 <= k < n ==> a@[k] == b@[k],
        n == a@.len() || n == b@.len() || a@[n as int] != b@[n as int],
{
    let mut n: usize = 0;
    while n < a.len() && n < b.len() && a[n] == b[n]
        invariant
            n <= a@.len(),
            n <= b@.len(),
            forall|k: int| 0 <= k < n ==> a@[k] == b@[k],
        decreases a@.len() - n,
    {
        n = n + 1;
    }
    n
}

/// Whether `a` from `i` on and `b` from `j` on hold the same bytes.
fn same_rest(a: &[u8], i: usize, b: &[u8], j: usize) -> (r: bool)
    requires
        i <= a@.len(),
        j <= b@.len(),
        a@.len() - i == b@.len() - j,
    ensures
        r == (forall|k: int| i <= k < a@.len() ==> a@[k] == #[trigger] b@[k - i + j]),
{
    let mut n: usize = i;
    let mut m: usize = j;
    while n < a.len() && m < b.len()
        invariant
            i <= n <= a@.len(),
            j <= m <= b@.len(),
            m - j == n - i,
            a@.len() - i == b@.len() - j,
            forall|k: int| i <= k < n ==> a@[k] == #[trigger] b@[k - i + j],
        decreases a@.len() - n,
    {
        if a[n] != b[m] {
            proof {
                assert(a@[n as int] != b@[n - i + j]);
            }
            return false;
        }
        n = n + 1;
        m = m + 1;
    }
    true
}

/// Whether the longer sequence is the shorter one with one byte put in.
fn one_inserted(shorter: &[u8], longer: &[u8]) -> (r: bool)
    requires
        shorter@.len() + 1 == longer@.len(),
    ensures
        r == (exists|i: int| 0 <= i < longer@.len() && #[trigger] longer@.remove(i) == shorter@),
{
    let ghost (s, l) = (shorter@, longer@);
    let n = common_prefix(shorter, longer);
    let r = same_rest(shorter, n, longer, longer.len() - (shorter.len() - n));
    proof {
        if r {
            assert forall|k: int| n <= k < s.len() implies s[k] == #[trigger] l[k + 1] by {
                assert(s[k] == l[k - n + (n + 1)]);
            }
            assert(l.remove(n as int) =~= s);
        }
        if exists|i: int| 0 <= i < l.len() && #[trigger] l.remove(i) == s {
            let i = choose|i: int| 0 <= i < l.len() && #[trigger] l.remove(i) == s;
            if n < i {
                assert(l.remove(i)[n as int] == l[n as int]);
            }
            assert forall|k: int| n <= k < s.len() implies s[k] == #[trigger] l[k - n + (n + 1)] by {
                assert(l.remove(i)[k] == l[k + 1]);
            }
        }
    }
    r
}

/// Whether one substitution, insertion or deletion of a byte turns `actual`
/// into `expected`.
pub fn one_edit_apart(actual: &[u8], expected: &[u8]) -> (r: bool)
    ensures
        r == one_edit(actual@, expected@),
{
    let ghost (a, b) = (actual@, expected@);
    proof {
        assert forall|i: int| 0 <= i < b.len() && #[trigger] b.remove(i) == a implies a.len() + 1
            == b.len() by {
            assert(b.remove(i).len() == b.len() - 1);
        }
        assert forall|i: int| 0 <= i < a.len() && #[trigger] a.remove(i) == b implies b.len() + 1
            == a.len() by {
            assert(a.remove(i).len() == a.len() - 1);
        }
    }
    if actual.len() == expected.len() {
        let n = common_prefix(actual, expected);
        if n == actual.len() {
            proof {
                assert(a =~= b);
                if one_edit(a, b) {
                    lemma_one_edit_differs(a, b);
                }
            }
            return false;
        }
        let r = same_rest(actual, n + 1, expected, n + 1);
        proof {
            let start = n + 1;
            if r {
                assert forall|k: int| start <= k < a.len() implies a[k] == b[k] by {
                    assert(a[k] == b[k - start + start]);
                }
                assert(a.update(n as int, b[n as int]) =~= b);
            }
            if exists|i: int|
                0 <= i < a.len() && a.len() == b.len() && a[i] != b[i] && #[trigger] a.update(
                    i,
                    b[i],
                ) == b {
                let i = choose|i: int|
                    0 <= i < a.len() && a.len() == b.len() && a[i] != b[i] && #[trigger] a.update(
                        i,
                        b[i],
                    ) == b;
                if i != n {
                    assert(a.update(i, b[i])[n as int] == a[n as int]);
                }
                assert forall|k: int| start <= k < a.len() implies a[k] == #[trigger] b[k - start
                    + start] by {
                    assert(a.update(i, b[i])[k] == a[k]);
                }
            }
        }
        r
    } else if actual.len() < expected.len() {
        if expected.len() - actual.len() == 1 {
            one_inserted(actual, expected)
        } else {
            false
        }
    } else if actual.len() - expected.len() == 1 {
        one_inserted(expected, actual)
    } else {
        false
    }
}

} // verus!
