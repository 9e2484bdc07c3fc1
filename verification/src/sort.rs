//! Sorting of image records: one comparator per sort key, a stable
//! insertion sort pinned to a recursive specification, and the reversal
//! that implements descending order.

use vstd::prelude::*;
use crate::text::{lex_le, lex_le_str, lowercase_of, fold_lowercase, str_eq};
use crate::paths::{basename_of, file_name_component};
use crate::records::{
    ImagePath, CategoryAssignment, last_categorized_key, last_categorized_epoch,
    parse_rfc3339_epoch, size_or_zero, created_key,
};

verus! {

/// The key a query sorts by. An unrecognized key sorts nothing: the input
/// order is kept, a deliberate safe default rather than an error.
#[derive(Clone, Copy)]
pub enum SortKey {
    Name,
    Size,
    DateCreated,
    LastCategorized,
    /// Full path, compared exactly; the directory scanner's listing order.
    /// No key string names it, so a query can never reach it.
    Path,
    Unspecified,
}

/// Which sort key a key string names; any other string is `Unspecified`.
pub open spec fn sort_key_of(s: Seq<char>) -> SortKey {
    if s == "name"@ {
        SortKey::Name
    } else if s == "size"@ {
        SortKey::Size
    } else if s == "dateCreated"@ {
        SortKey::DateCreated
    } else if s == "lastCategorized"@ {
        SortKey::LastCategorized
    } else {
        SortKey::Unspecified
    }
}

/// Parses a sort key string.
pub fn parse_sort_key(s: &str) -> (r: SortKey)
    ensures
        r == sort_key_of(s@),
{
    if str_eq(s, "name") {
        SortKey::Name
    } else if str_eq(s, "size") {
        SortKey::Size
    } else if str_eq(s, "dateCreated") {
        SortKey::DateCreated
    } else if str_eq(s, "lastCategorized") {
        SortKey::LastCategorized
    } else {
        SortKey::Unspecified
    }
}

/// `<=` on optional times where a missing time sorts after every present
/// one (creation dates: unknown dates go last in ascending order).
pub open spec fn le_missing_last(a: Option<i64>, b: Option<i64>) -> bool {
    match (a, b) {
        (Some(x), Some(y)) => x <= y,
        (Some(_), None) => true,
        (None, Some(_)) => false,
        (None, None) => true,
    }
}

/// `<=` on optional times where a missing time sorts before every present
/// one (last-categorized: never-categorized records count as oldest).
pub open spec fn le_missing_first(a: Option<i64>, b: Option<i64>) -> bool {
    match (a, b) {
        (None, _) => true,
        (Some(_), None) => false,
        (Some(x), Some(y)) => x <= y,
    }
}

/// The name a record sorts and matches by: the lowercased final component
/// of its path.
pub open spec fn name_key(r: ImagePath) -> Seq<char> {
    lowercase_of(basename_of(r.path@))
}

/// The ascending comparator for each sort key. For `Unspecified` every pair
/// compares equal; the engine never sorts with it.
pub open spec fn record_le(
    key: SortKey,
    m: Seq<(String, Vec<CategoryAssignment>)>,
    a: ImagePath,
    b: ImagePath,
) -> bool {
    match key {
        SortKey::Name => lex_le(name_key(a), name_key(b)),
        SortKey::Size => size_or_zero(a) <= size_or_zero(b),
        SortKey::DateCreated => le_missing_last(created_key(a), created_key(b)),
        SortKey::LastCategorized => le_missing_first(
            last_categorized_key(m, a.path@),
            last_categorized_key(m, b.path@),
        ),
        SortKey::Path => lex_le(a.path@, b.path@),
        SortKey::Unspecified => true,
    }
}

fn le_missing_last_exec(a: Option<i64>, b: Option<i64>) -> (r: bool)
    ensures
        r == le_missing_last(a, b),
{
    match (a, b) {
        (Some(x), Some(y)) => x <= y,
        (Some(_), None) => true,
        (None, Some(_)) => false,
        (None, None) => true,
    }
}

fn le_missing_first_exec(a: Option<i64>, b: Option<i64>) -> (r: bool)
    ensures
        r == le_missing_first(a, b),
{
    match (a, b) {
        (None, _) => true,
        (Some(_), None) => false,
        (Some(x), Some(y)) => x <= y,
    }
}

/// Decides `record_le` on two records.
fn record_le_exec(
    key: SortKey,
    m: &Vec<(String, Vec<CategoryAssignment>)>,
    a: &ImagePath,
    b: &ImagePath,
) -> (r: bool)
    ensures
        r == record_le(key, m@, *a, *b),
{
    match key {
        SortKey::Name => {
            let na: String = fold_lowercase(file_name_component(a.path.as_str()).as_str());
            let nb: String = fold_lowercase(file_name_component(b.path.as_str()).as_str());
            lex_le_str(na.as_str(), nb.as_str())
        },
        SortKey::Size => {
            let sa: u64 = match a.size {
                None => 0,
                Some(s) => s,
            };
            let sb: u64 = match b.size {
                None => 0,
                Some(s) => s,
            };
            sa <= sb
        },
        SortKey::DateCreated => {
            let da: Option<i64> = match &a.created_at {
                None => None,
                Some(s) => parse_rfc3339_epoch(s.as_str()),
            };
            let db: Option<i64> = match &b.created_at {
                None => None,
                Some(s) => parse_rfc3339_epoch(s.as_str()),
            };
            le_missing_last_exec(da, db)
        },
        SortKey::LastCategorized => {
            let da: Option<i64> = last_categorized_epoch(m, a.path.as_str());
            let db: Option<i64> = last_categorized_epoch(m, b.path.as_str());
            le_missing_first_exec(da, db)
        },
        SortKey::Path => lex_le_str(a.path.as_str(), b.path.as_str()),
        SortKey::Unspecified => true,
    }
}

/// Inserting a record into an already-sorted run: it goes after every
/// element that compares `<=` to it, so that among equals the later-arriving
/// record stays later (stability).
pub open spec fn insert_le(
    key: SortKey,
    m: Seq<(String, Vec<CategoryAssignment>)>,
    x: ImagePath,
    s: Seq<ImagePath>,
) -> Seq<ImagePath>
    decreases s.len(),
{
    if s.len() == 0 {
        seq![x]
    } else if record_le(key, m, s.last(), x) {
        s.push(x)
    } else {
        insert_le(key, m, x, s.drop_last()).push(s.last())
    }
}

/// The stable ascending sort of a sequence: insert each element, in input
/// order, into the sorted run of those before it.
pub open spec fn sort_by_key(
    key: SortKey,
    m: Seq<(String, Vec<CategoryAssignment>)>,
    s: Seq<ImagePath>,
) -> Seq<ImagePath>
    decreases s.len(),
{
    if s.len() == 0 {
        s
    } else {
        insert_le(key, m, s.last(), sort_by_key(key, m, s.drop_last()))
    }
}

/// Where the back-to-front scan stops, `insert_le` splits the run around
/// the new element.
proof fn lemma_insert_le_split(
    key: SortKey,
    m: Seq<(String, Vec<CategoryAssignment>)>,
    x: ImagePath,
    s: Seq<ImagePath>,
    i: int,
)
    requires
        0 <= i <= s.len(),
        forall|jj: int| i <= jj < s.len() ==> !record_le(key, m, #[trigger] s[jj], x),
        i > 0 ==> record_le(key, m, s[i - 1], x),
    ensures
        insert_le(key, m, x, s) =~= s.take(i).push(x) + s.skip(i),
    decreases s.len() - i,
{
    if i == s.len() {
        if i == 0 {
            assert(insert_le(key, m, x, s) =~= s.take(i).push(x) + s.skip(i));
        } else {
            assert(record_le(key, m, s.last(), x));
            assert(s.take(i) =~= s);
            assert(insert_le(key, m, x, s) =~= s.take(i).push(x) + s.skip(i));
        }
    } else {
        assert(!record_le(key, m, s[s.len() - 1], x));
        lemma_insert_le_split(key, m, x, s.drop_last(), i);
        assert(s.drop_last().take(i) =~= s.take(i));
        assert((s.take(i).push(x) + s.drop_last().skip(i)).push(s.last()) =~= s.take(i).push(x)
            + s.skip(i));
    }
}

/// Finds the stable insertion position for `x`: just after the last element
/// that compares `<=` to it.
fn insertion_pos(
    key: SortKey,
    m: &Vec<(String, Vec<CategoryAssignment>)>,
    v: &Vec<ImagePath>,
    x: &ImagePath,
) -> (i: usize)
    ensures
        i <= v@.len(),
        forall|jj: int| i <= jj < v@.len() ==> !record_le(key, m@, #[trigger] v@[jj], *x),
        i > 0 ==> record_le(key, m@, v@[i - 1], *x),
{
    let mut i: usize = v.len();
    loop
        invariant
            i <= v@.len(),
            forall|jj: int| i <= jj < v@.len() ==> !record_le(key, m@, #[trigger] v@[jj], *x),
        decreases i,
    {
        if i == 0 {
            return 0;
        }
        if record_le_exec(key, m, &v[i - 1], x) {
            return i;
        }
        i = i - 1;
    }
}

/// Inserts `x` into the sorted run `v` at its stable position.
fn insert_sorted(
    key: SortKey,
    m: &Vec<(String, Vec<CategoryAssignment>)>,
    v: &mut Vec<ImagePath>,
    x: ImagePath,
)
    ensures
        final(v)@ == insert_le(key, m@, x, old(v)@),
{
    let i: usize = insertion_pos(key, m, v, &x);
    proof {
        lemma_insert_le_split(key, m@, x, v@, i as int);
    }
    v.insert(i, x);
    proof {
        assert(v@ =~= old(v)@.take(i as int).push(x) + old(v)@.skip(i as int));
    }
}

/// Sorts the records ascending by `key`, stably: records that compare equal
/// keep their input order.
pub fn sort_records(
    key: SortKey,
    m: &Vec<(String, Vec<CategoryAssignment>)>,
    images: Vec<ImagePath>,
) -> (r: Vec<ImagePath>)
    ensures
        r@ == sort_by_key(key, m@, images@),
    decreases images@.len(),
{
    let mut v = images;
    if v.len() == 0 {
        v
    } else {
        let x: ImagePath = v.pop().unwrap();
        let mut sorted: Vec<ImagePath> = sort_records(key, m, v);
        insert_sorted(key, m, &mut sorted, x);
        sorted
    }
}

/// Two distinct characters have distinct scalar values.
proof fn lemma_char_cast_injective(x: char, y: char)
    requires
        x as u32 == y as u32,
    ensures
        x == y,
{
    vstd::utf8::char_u32_cast(x, x as u32);
    vstd::utf8::char_u32_cast(y, x as u32);
}

proof fn lemma_lex_le_total(a: Seq<char>, b: Seq<char>)
    ensures
        lex_le(a, b) || lex_le(b, a),
    decreases a.len(),
{
    if a.len() > 0 && b.len() > 0 && a[0] == b[0] {
        lemma_lex_le_total(a.drop_first(), b.drop_first());
    } else if a.len() > 0 && b.len() > 0 {
        if (a[0] as u32) == (b[0] as u32) {
            lemma_char_cast_injective(a[0], b[0]);
        }
    }
}

proof fn lemma_lex_le_trans(a: Seq<char>, b: Seq<char>, c: Seq<char>)
    requires
        lex_le(a, b),
        lex_le(b, c),
    ensures
        lex_le(a, c),
    decreases a.len(),
{
    if a.len() > 0 && b.len() > 0 && c.len() > 0 && a[0] == b[0] && b[0] == c[0] {
        lemma_lex_le_trans(a.drop_first(), b.drop_first(), c.drop_first());
    }
}

/// Every comparator orders every pair of records one way or the other.
pub proof fn lemma_record_le_total(
    key: SortKey,
    m: Seq<(String, Vec<CategoryAssignment>)>,
    a: ImagePath,
    b: ImagePath,
)
    ensures
        record_le(key, m, a, b) || record_le(key, m, b, a),
{
    match key {
        SortKey::Name => lemma_lex_le_total(name_key(a), name_key(b)),
        SortKey::Path => lemma_lex_le_total(a.path@, b.path@),
        _ => (),
    }
}

/// Every comparator is transitive.
pub proof fn lemma_record_le_trans(
    key: SortKey,
    m: Seq<(String, Vec<CategoryAssignment>)>,
    a: ImagePath,
    b: ImagePath,
    c: ImagePath,
)
    requires
        record_le(key, m, a, b),
        record_le(key, m, b, c),
    ensures
        record_le(key, m, a, c),
{
    match key {
        SortKey::Name => lemma_lex_le_trans(name_key(a), name_key(b), name_key(c)),
        SortKey::Path => lemma_lex_le_trans(a.path@, b.path@, c.path@),
        _ => (),
    }
}

/// Every adjacent-or-distant pair of the sequence is ordered by the
/// comparator.
pub open spec fn sorted_by(
    key: SortKey,
    m: Seq<(String, Vec<CategoryAssignment>)>,
    s: Seq<ImagePath>,
) -> bool {
    forall|i: int, j: int| 0 <= i < j < s.len() ==> record_le(key, m, #[trigger] s[i], #[trigger] s[j])
}

proof fn lemma_insert_le_len(
    key: SortKey,
    m: Seq<(String, Vec<CategoryAssignment>)>,
    x: ImagePath,
    s: Seq<ImagePath>,
)
    ensures
        insert_le(key, m, x, s).len() == s.len() + 1,
    decreases s.len(),
{
    if s.len() > 0 && !record_le(key, m, s.last(), x) {
        lemma_insert_le_len(key, m, x, s.drop_last());
    }
}

proof fn lemma_insert_le_membership(
    key: SortKey,
    m: Seq<(String, Vec<CategoryAssignment>)>,
    x: ImagePath,
    s: Seq<ImagePath>,
    k: int,
)
    requires
        0 <= k < insert_le(key, m, x, s).len(),
    ensures
        insert_le(key, m, x, s)[k] == x || s.contains(insert_le(key, m, x, s)[k]),
    decreases s.len(),
{
    let r = insert_le(key, m, x, s);
    lemma_insert_le_len(key, m, x, s);
    if s.len() == 0 {
    } else if record_le(key, m, s.last(), x) {
        if k < s.len() {
            assert(r[k] == s[k]);
            assert(s.contains(r[k]));
        }
    } else {
        let r2 = insert_le(key, m, x, s.drop_last());
        lemma_insert_le_len(key, m, x, s.drop_last());
        if k == r.len() - 1 {
            assert(r[k] == s.last());
            assert(s.contains(r[k]));
        } else {
            assert(r[k] == r2[k]);
            lemma_insert_le_membership(key, m, x, s.drop_last(), k);
            if r2[k] != x {
                let j = choose|j: int| 0 <= j < s.drop_last().len() && s.drop_last()[j] == r2[k];
                assert(s[j] == r2[k]);
                assert(s.contains(r[k]));
            }
        }
    }
}

proof fn lemma_insert_le_sorted(
    key: SortKey,
    m: Seq<(String, Vec<CategoryAssignment>)>,
    x: ImagePath,
    s: Seq<ImagePath>,
)
    requires
        sorted_by(key, m, s),
    ensures
        sorted_by(key, m, insert_le(key, m, x, s)),
    decreases s.len(),
{
    let r = insert_le(key, m, x, s);
    lemma_insert_le_len(key, m, x, s);
    if s.len() == 0 {
    } else if record_le(key, m, s.last(), x) {
        assert forall|i: int, j: int| 0 <= i < j < r.len() implies record_le(
            key,
            m,
            #[trigger] r[i],
            #[trigger] r[j],
        ) by {
            if j < s.len() {
                assert(r[i] == s[i] && r[j] == s[j]);
            } else {
                assert(r[j] == x);
                assert(r[i] == s[i]);
                if i < s.len() - 1 {
                    assert(record_le(key, m, s[i], s[s.len() - 1]));
                    lemma_record_le_trans(key, m, s[i], s[s.len() - 1], x);
                }
            }
        }
    } else {
        lemma_record_le_total(key, m, s.last(), x);
        assert(record_le(key, m, x, s.last()));
        assert(sorted_by(key, m, s.drop_last()));
        lemma_insert_le_sorted(key, m, x, s.drop_last());
        let r2 = insert_le(key, m, x, s.drop_last());
        lemma_insert_le_len(key, m, x, s.drop_last());
        assert forall|i: int, j: int| 0 <= i < j < r.len() implies record_le(
            key,
            m,
            #[trigger] r[i],
            #[trigger] r[j],
        ) by {
            if j < r2.len() {
                assert(r[i] == r2[i] && r[j] == r2[j]);
            } else {
                assert(r[j] == s.last());
                assert(r[i] == r2[i]);
                lemma_insert_le_membership(key, m, x, s.drop_last(), i);
                if r2[i] == x {
                    assert(record_le(key, m, r[i], r[j]));
                } else {
                    let t = choose|t: int|
                        0 <= t < s.drop_last().len() && s.drop_last()[t] == r2[i];
                    assert(s[t] == r2[i]);
                    assert(record_le(key, m, s[t], s[s.len() - 1]));
                }
            }
        }
    }
}

/// The ascending sort is sorted: every pair of its records, in order, is
/// related by the comparator.
pub proof fn lemma_sort_by_key_sorted(
    key: SortKey,
    m: Seq<(String, Vec<CategoryAssignment>)>,
    s: Seq<ImagePath>,
)
    ensures
        sorted_by(key, m, sort_by_key(key, m, s)),
    decreases s.len(),
{
    if s.len() > 0 {
        lemma_sort_by_key_sorted(key, m, s.drop_last());
        lemma_insert_le_sorted(key, m, s.last(), sort_by_key(key, m, s.drop_last()));
    }
}

proof fn lemma_insert_le_multiset(
    key: SortKey,
    m: Seq<(String, Vec<CategoryAssignment>)>,
    x: ImagePath,
    s: Seq<ImagePath>,
)
    ensures
        insert_le(key, m, x, s).to_multiset() == s.to_multiset().insert(x),
    decreases s.len(),
{
    broadcast use vstd::seq_lib::group_to_multiset_ensures;

    if s.len() == 0 {
        assert(seq![x] =~= Seq::<ImagePath>::empty().push(x));
        assert(insert_le(key, m, x, s).to_multiset() =~= s.to_multiset().insert(x));
    } else if record_le(key, m, s.last(), x) {
        assert(insert_le(key, m, x, s).to_multiset() =~= s.to_multiset().insert(x));
    } else {
        lemma_insert_le_multiset(key, m, x, s.drop_last());
        assert(s =~= s.drop_last().push(s.last()));
        assert(s.to_multiset() =~= s.drop_last().to_multiset().insert(s.last()));
        assert(insert_le(key, m, x, s).to_multiset() =~= s.drop_last().to_multiset().insert(
            x,
        ).insert(s.last()));
        assert(s.drop_last().to_multiset().insert(x).insert(s.last())
            =~= s.drop_last().to_multiset().insert(s.last()).insert(x));
    }
}

/// Two records the comparator cannot tell apart.
pub open spec fn tied(
    key: SortKey,
    m: Seq<(String, Vec<CategoryAssignment>)>,
    a: ImagePath,
    b: ImagePath,
) -> bool {
    record_le(key, m, a, b) && record_le(key, m, b, a)
}

/// The records tied with `x` under the comparator, as a predicate.
pub open spec fn tied_with(
    key: SortKey,
    m: Seq<(String, Vec<CategoryAssignment>)>,
    x: ImagePath,
) -> spec_fn(ImagePath) -> bool {
    |e: ImagePath| tied(key, m, e, x)
}

proof fn lemma_insert_le_filter(
    key: SortKey,
    m: Seq<(String, Vec<CategoryAssignment>)>,
    y: ImagePath,
    s: Seq<ImagePath>,
    x: ImagePath,
)
    ensures
        tied(key, m, y, x) ==> insert_le(key, m, y, s).filter(tied_with(key, m, x)) == s.filter(
            tied_with(key, m, x),
        ).push(y),
        !tied(key, m, y, x) ==> insert_le(key, m, y, s).filter(tied_with(key, m, x)) == s.filter(
            tied_with(key, m, x),
        ),
    decreases s.len(),
{
    reveal_with_fuel(Seq::<_>::filter, 2);
    let p = tied_with(key, m, x);
    assert(p(y) == tied(key, m, y, x));
    if s.len() == 0 {
        let r = insert_le(key, m, y, s);
        assert(r == seq![y]);
        assert(r.drop_last() =~= s);
        assert(s.filter(p) == s);
        assert(r.last() == y);
        assert(r.filter(p) == if p(y) {
            s.filter(p).push(y)
        } else {
            s.filter(p)
        });
    } else if record_le(key, m, s.last(), y) {
        let r = insert_le(key, m, y, s);
        assert(r == s.push(y));
        assert(r.drop_last() =~= s);
        assert(r.last() == y);
        assert(r.filter(p) == if p(y) {
            s.filter(p).push(y)
        } else {
            s.filter(p)
        });
    } else {
        lemma_insert_le_filter(key, m, y, s.drop_last(), x);
        let r2 = insert_le(key, m, y, s.drop_last());
        let r = insert_le(key, m, y, s);
        assert(r == r2.push(s.last()));
        assert(r.drop_last() =~= r2);
        assert(r.last() == s.last());
        assert(p(s.last()) == tied(key, m, s.last(), x));
        assert(r.filter(p) == if p(s.last()) {
            r2.filter(p).push(s.last())
        } else {
            r2.filter(p)
        });
        assert(s.filter(p) == if p(s.last()) {
            s.drop_last().filter(p).push(s.last())
        } else {
            s.drop_last().filter(p)
        });
        if tied(key, m, y, x) && tied(key, m, s.last(), x) {
            // A record tied with `y`'s class would compare `<=` to `y`, and
            // the scan only passed records that do not.
            lemma_record_le_trans(key, m, s.last(), x, y);
            assert(false);
        }
    }
}

/// Stability law: for any record, the records tied with it come out of the
/// sort in exactly their input order. Together with sortedness and the
/// permutation law this pins the sort completely.
pub proof fn lemma_sort_by_key_stable(
    key: SortKey,
    m: Seq<(String, Vec<CategoryAssignment>)>,
    s: Seq<ImagePath>,
    x: ImagePath,
)
    ensures
        sort_by_key(key, m, s).filter(tied_with(key, m, x)) == s.filter(tied_with(key, m, x)),
    decreases s.len(),
{
    reveal_with_fuel(Seq::<_>::filter, 2);
    let p = tied_with(key, m, x);
    if s.len() > 0 {
        lemma_sort_by_key_stable(key, m, s.drop_last(), x);
        lemma_insert_le_filter(key, m, s.last(), sort_by_key(key, m, s.drop_last()), x);
        assert(s.filter(p) == if p(s.last()) {
            s.drop_last().filter(p).push(s.last())
        } else {
            s.drop_last().filter(p)
        });
    } else {
        assert(s.filter(p) == s);
    }
}

/// The sort is a permutation: it returns exactly the records it was given,
/// with their multiplicities.
pub proof fn lemma_sort_by_key_permutation(
    key: SortKey,
    m: Seq<(String, Vec<CategoryAssignment>)>,
    s: Seq<ImagePath>,
)
    ensures
        sort_by_key(key, m, s).to_multiset() == s.to_multiset(),
    decreases s.len(),
{
    broadcast use vstd::seq_lib::group_to_multiset_ensures;

    if s.len() > 0 {
        lemma_sort_by_key_permutation(key, m, s.drop_last());
        lemma_insert_le_multiset(key, m, s.last(), sort_by_key(key, m, s.drop_last()));
        assert(s =~= s.drop_last().push(s.last()));
        assert(s.to_multiset() =~= s.drop_last().to_multiset().insert(s.last()));
    }
}

/// Sorts records by their full path, ascending and stable: the order a
/// directory listing is presented in.
pub fn sort_records_by_path(images: Vec<ImagePath>) -> (r: Vec<ImagePath>)
    ensures
        r@ == sort_by_key(SortKey::Path, Seq::empty(), images@),
{
    let m: Vec<(String, Vec<CategoryAssignment>)> = Vec::new();
    sort_records(SortKey::Path, &m, images)
}

/// Returns the records in reverse order; descending order is exactly the
/// reversal of the ascending sort.
pub fn reverse_records(images: Vec<ImagePath>) -> (r: Vec<ImagePath>)
    ensures
        r@ == images@.reverse(),
{
    let mut v = images;
    let mut out: Vec<ImagePath> = Vec::new();
    proof {
        assert(v@ =~= images@.take(v@.len() as int));
    }
    while v.len() > 0
        invariant
            out@.len() + v@.len() == images@.len(),
            v@ == images@.take(v@.len() as int),
            forall|k: int| 0 <= k < out@.len() ==> out@[k] == images@[images@.len() - 1 - k],
        decreases v@.len(),
    {
        let x: ImagePath = v.pop().unwrap();
        proof {
            assert(images@.take((v@.len() + 1) as int).subrange(0, v@.len() as int) =~= images@.take(
                v@.len() as int,
            ));
        }
        out.push(x);
    }
    proof {
        assert(out@ =~= images@.reverse());
    }
    out
}

} // verus!
