//! Filtering of image records: the three filter clauses (category, name,
//! size), their forgiving-default semantics, and the laws they obey. All
//! clauses are conjoined; an absent, empty or unparsable clause imposes no
//! constraint rather than failing.

use vstd::prelude::*;
use vstd::string::StrSliceExecFns;
use crate::text::{
    contains_seq, starts_with_seq, ends_with_seq, lowercase_of, fold_lowercase, str_contains,
    str_starts_with, str_ends_with, str_eq, parse_u64_spec, parse_u64_str,
};
use crate::paths::file_name_component;
use crate::records::{
    ImagePath, CategoryAssignment, assignments_of, lookup_assignments, size_or_zero,
};
use crate::sort::name_key;

verus! {

/// The raw filter clauses as the caller supplies them. String-typed
/// operators keep the transport shape; unrecognized values fall back to a
/// documented default per clause.
pub struct FilterOptions {
    /// `None` or empty: no category constraint; the special value
    /// `uncategorized` keeps records with no assignments.
    pub category_id: Option<String>,
    /// `None` or empty: no name constraint.
    pub name_pattern: Option<String>,
    /// `startsWith`, `endsWith`, `exact`; anything else means `contains`.
    pub name_operator: Option<String>,
    /// `lessThan`, `between`; anything else means `largerThan`.
    pub size_operator: Option<String>,
    /// Threshold in kibibytes; empty or non-numeric disables the clause.
    pub size_value: Option<String>,
    /// Second threshold for `between`; empty or non-numeric disables the
    /// whole size clause.
    pub size_value2: Option<String>,
}

/// How a name pattern is matched against the lowercased file name.
#[derive(Clone, Copy)]
pub enum NameOp {
    Contains,
    StartsWith,
    EndsWith,
    Exact,
}

/// Which name operator a string names; anything unrecognized, or no string
/// at all, means `Contains`.
pub open spec fn name_op_of(o: Option<String>) -> NameOp {
    match o {
        None => NameOp::Contains,
        Some(s) => if s@ == "startsWith"@ {
            NameOp::StartsWith
        } else if s@ == "endsWith"@ {
            NameOp::EndsWith
        } else if s@ == "exact"@ {
            NameOp::Exact
        } else {
            NameOp::Contains
        },
    }
}

fn name_op_exec(o: &Option<String>) -> (r: NameOp)
    ensures
        r == name_op_of(*o),
{
    match o {
        None => NameOp::Contains,
        Some(s) => {
            if str_eq(s.as_str(), "startsWith") {
                NameOp::StartsWith
            } else if str_eq(s.as_str(), "endsWith") {
                NameOp::EndsWith
            } else if str_eq(s.as_str(), "exact") {
                NameOp::Exact
            } else {
                NameOp::Contains
            }
        },
    }
}

/// How a size threshold is compared.
#[derive(Clone, Copy)]
pub enum SizeOp {
    LargerThan,
    LessThan,
    Between,
}

/// Which size operator a string names; anything unrecognized, or no string
/// at all, means `LargerThan`.
pub open spec fn size_op_of(o: Option<String>) -> SizeOp {
    match o {
        None => SizeOp::LargerThan,
        Some(s) => if s@ == "lessThan"@ {
            SizeOp::LessThan
        } else if s@ == "between"@ {
            SizeOp::Between
        } else {
            SizeOp::LargerThan
        },
    }
}

fn size_op_exec(o: &Option<String>) -> (r: SizeOp)
    ensures
        r == size_op_of(*o),
{
    match o {
        None => SizeOp::LargerThan,
        Some(s) => {
            if str_eq(s.as_str(), "lessThan") {
                SizeOp::LessThan
            } else if str_eq(s.as_str(), "between") {
                SizeOp::Between
            } else {
                SizeOp::LargerThan
            }
        },
    }
}

/// Some assignment in the list carries exactly this category id.
pub open spec fn has_category(assigns: Seq<CategoryAssignment>, c: Seq<char>) -> bool {
    exists|i: int| 0 <= i < assigns.len() && (#[trigger] assigns[i]).category_id@ == c
}

fn has_category_exec(v: &Vec<CategoryAssignment>, c: &str) -> (r: bool)
    ensures
        r == has_category(v@, c@),
{
    let mut i: usize = 0;
    while i < v.len()
        invariant
            i <= v@.len(),
            forall|k: int| 0 <= k < i ==> (#[trigger] v@[k]).category_id@ != c@,
        decreases v@.len() - i,
    {
        if str_eq(v[i].category_id.as_str(), c) {
            proof {
                assert(0 <= i < v@.len() && v@[i as int].category_id@ == c@);
            }
            return true;
        }
        i = i + 1;
    }
    false
}

/// The category clause: empty or absent is no constraint; `uncategorized`
/// keeps exactly the records with no assignments; any other id keeps the
/// records with at least one assignment carrying that id, compared exactly.
pub open spec fn category_ok(
    fo: FilterOptions,
    m: Seq<(String, Vec<CategoryAssignment>)>,
    r: ImagePath,
) -> bool {
    match fo.category_id {
        None => true,
        Some(c) => if c@.len() == 0 {
            true
        } else if c@ == "uncategorized"@ {
            assignments_of(m, r.path@).len() == 0
        } else {
            has_category(assignments_of(m, r.path@), c@)
        },
    }
}

fn category_ok_exec(
    fo: &FilterOptions,
    m: &Vec<(String, Vec<CategoryAssignment>)>,
    r: &ImagePath,
) -> (res: bool)
    ensures
        res == category_ok(*fo, m@, *r),
{
    match &fo.category_id {
        None => true,
        Some(c) => {
            if c.as_str().unicode_len() == 0 {
                true
            } else if str_eq(c.as_str(), "uncategorized") {
                match lookup_assignments(m, r.path.as_str()) {
                    None => true,
                    Some(v) => v.len() == 0,
                }
            } else {
                match lookup_assignments(m, r.path.as_str()) {
                    None => false,
                    Some(v) => has_category_exec(v, c.as_str()),
                }
            }
        },
    }
}

/// The name clause: an empty or absent pattern is no constraint; otherwise
/// the lowercased pattern is matched against the record's lowercased file
/// name with the chosen operator.
pub open spec fn name_ok(fo: FilterOptions, r: ImagePath) -> bool {
    match fo.name_pattern {
        None => true,
        Some(p) => if p@.len() == 0 {
            true
        } else {
            match name_op_of(fo.name_operator) {
                NameOp::Contains => contains_seq(name_key(r), lowercase_of(p@)),
                NameOp::StartsWith => starts_with_seq(name_key(r), lowercase_of(p@)),
                NameOp::EndsWith => ends_with_seq(name_key(r), lowercase_of(p@)),
                NameOp::Exact => name_key(r) == lowercase_of(p@),
            }
        },
    }
}

fn name_ok_exec(fo: &FilterOptions, r: &ImagePath) -> (res: bool)
    ensures
        res == name_ok(*fo, *r),
{
    match &fo.name_pattern {
        None => true,
        Some(p) => {
            if p.as_str().unicode_len() == 0 {
                true
            } else {
                let name: String = fold_lowercase(file_name_component(r.path.as_str()).as_str());
                let pat: String = fold_lowercase(p.as_str());
                match name_op_exec(&fo.name_operator) {
                    NameOp::Contains => str_contains(name.as_str(), pat.as_str()),
                    NameOp::StartsWith => str_starts_with(name.as_str(), pat.as_str()),
                    NameOp::EndsWith => str_ends_with(name.as_str(), pat.as_str()),
                    NameOp::Exact => str_eq(name.as_str(), pat.as_str()),
                }
            }
        },
    }
}

/// The size clause. Thresholds are kibibytes, compared in bytes; a missing
/// record size counts as zero. An empty or non-numeric threshold disables
/// the clause, and `between` needs both thresholds, in either order.
pub open spec fn size_ok(fo: FilterOptions, r: ImagePath) -> bool {
    match fo.size_value {
        None => true,
        Some(v) => if v@.len() == 0 {
            true
        } else {
            match parse_u64_spec(v@) {
                None => true,
                Some(kb) => {
                    let bytes = kb as int * 1024;
                    match size_op_of(fo.size_operator) {
                        SizeOp::LessThan => size_or_zero(r) < bytes,
                        SizeOp::LargerThan => size_or_zero(r) > bytes,
                        SizeOp::Between => match fo.size_value2 {
                            None => true,
                            Some(v2) => if v2@.len() == 0 {
                                true
                            } else {
                                match parse_u64_spec(v2@) {
                                    None => true,
                                    Some(kb2) => {
                                        let bytes2 = kb2 as int * 1024;
                                        let lo = if bytes <= bytes2 {
                                            bytes
                                        } else {
                                            bytes2
                                        };
                                        let hi = if bytes <= bytes2 {
                                            bytes2
                                        } else {
                                            bytes
                                        };
                                        lo <= size_or_zero(r) <= hi
                                    },
                                }
                            },
                        },
                    }
                },
            }
        },
    }
}

fn size_ok_exec(fo: &FilterOptions, r: &ImagePath) -> (res: bool)
    ensures
        res == size_ok(*fo, *r),
{
    match &fo.size_value {
        None => true,
        Some(v) => {
            if v.as_str().unicode_len() == 0 {
                return true;
            }
            match parse_u64_str(v.as_str()) {
                None => true,
                Some(kb) => {
                    let bytes: u128 = (kb as u128) * 1024;
                    let sz: u128 = (match r.size {
                        None => 0u64,
                        Some(s) => s,
                    }) as u128;
                    match size_op_exec(&fo.size_operator) {
                        SizeOp::LessThan => sz < bytes,
                        SizeOp::LargerThan => sz > bytes,
                        SizeOp::Between => {
                            match &fo.size_value2 {
                                None => true,
                                Some(v2) => {
                                    if v2.as_str().unicode_len() == 0 {
                                        return true;
                                    }
                                    match parse_u64_str(v2.as_str()) {
                                        None => true,
                                        Some(kb2) => {
                                            let bytes2: u128 = (kb2 as u128) * 1024;
                                            let lo: u128 = if bytes <= bytes2 {
                                                bytes
                                            } else {
                                                bytes2
                                            };
                                            let hi: u128 = if bytes <= bytes2 {
                                                bytes2
                                            } else {
                                                bytes
                                            };
                                            lo <= sz && sz <= hi
                                        },
                                    }
                                },
                            }
                        },
                    }
                },
            }
        },
    }
}

/// Whether a record passes the whole filter: all clauses conjoined; no
/// filter at all keeps everything.
pub open spec fn keeps(
    f: Option<FilterOptions>,
    m: Seq<(String, Vec<CategoryAssignment>)>,
    r: ImagePath,
) -> bool {
    match f {
        None => true,
        Some(fo) => category_ok(fo, m, r) && name_ok(fo, r) && size_ok(fo, r),
    }
}

/// Decides `keeps` for one record.
pub fn keeps_exec(
    f: &Option<FilterOptions>,
    m: &Vec<(String, Vec<CategoryAssignment>)>,
    r: &ImagePath,
) -> (res: bool)
    ensures
        res == keeps(*f, m@, *r),
{
    match f {
        None => true,
        Some(fo) => category_ok_exec(fo, m, r) && name_ok_exec(fo, r) && size_ok_exec(fo, r),
    }
}

/// The records that pass the filter, in input order.
pub open spec fn filter_keeps(
    s: Seq<ImagePath>,
    m: Seq<(String, Vec<CategoryAssignment>)>,
    f: Option<FilterOptions>,
) -> Seq<ImagePath>
    decreases s.len(),
{
    if s.len() == 0 {
        s
    } else {
        filter_keeps(s.drop_last(), m, f) + (if keeps(f, m, s.last()) {
            seq![s.last()]
        } else {
            Seq::empty()
        })
    }
}

/// Keeps exactly the records that pass the filter, in input order.
pub fn filter_records(
    images: Vec<ImagePath>,
    m: &Vec<(String, Vec<CategoryAssignment>)>,
    f: &Option<FilterOptions>,
) -> (r: Vec<ImagePath>)
    ensures
        r@ == filter_keeps(images@, m@, *f),
{
    let mut out: Vec<ImagePath> = Vec::new();
    let mut i: usize = 0;
    while i < images.len()
        invariant
            i <= images@.len(),
            out@ == filter_keeps(images@.take(i as int), m@, *f),
        decreases images@.len() - i,
    {
        proof {
            assert(images@.take(i + 1).drop_last() =~= images@.take(i as int));
            assert(images@.take(i + 1).last() == images@[i as int]);
        }
        if keeps_exec(f, m, &images[i]) {
            out.push(images[i].duplicate());
            proof {
                assert(out@ =~= filter_keeps(images@.take(i + 1), m@, *f));
            }
        } else {
            proof {
                assert(out@ =~= filter_keeps(images@.take(i + 1), m@, *f));
            }
        }
        i = i + 1;
    }
    proof {
        assert(images@.take(images@.len() as int) =~= images@);
    }
    out
}

/// With no filter at all, filtering keeps every record in place.
pub proof fn lemma_filter_none_identity(
    s: Seq<ImagePath>,
    m: Seq<(String, Vec<CategoryAssignment>)>,
)
    ensures
        filter_keeps(s, m, None::<FilterOptions>) == s,
    decreases s.len(),
{
    if s.len() > 0 {
        lemma_filter_none_identity(s.drop_last(), m);
        assert(filter_keeps(s, m, None::<FilterOptions>) =~= s);
    } else {
        assert(filter_keeps(s, m, None::<FilterOptions>) =~= s);
    }
}

/// A record is in the filtered sequence exactly when it is in the input and
/// passes the filter.
pub proof fn lemma_filter_membership(
    s: Seq<ImagePath>,
    m: Seq<(String, Vec<CategoryAssignment>)>,
    f: Option<FilterOptions>,
    x: ImagePath,
)
    ensures
        filter_keeps(s, m, f).contains(x) <==> (s.contains(x) && keeps(f, m, x)),
    decreases s.len(),
{
    if s.len() == 0 {
    } else {
        lemma_filter_membership(s.drop_last(), m, f, x);
        let fd = filter_keeps(s.drop_last(), m, f);
        let fs = filter_keeps(s, m, f);
        if fs.contains(x) {
            let i = choose|i: int| 0 <= i < fs.len() && fs[i] == x;
            if i < fd.len() {
                assert(fd[i] == x);
                assert(fd.contains(x));
                let j = choose|j: int| 0 <= j < s.drop_last().len() && s.drop_last()[j] == x;
                assert(s[j] == x);
                assert(s.contains(x));
            } else {
                assert(keeps(f, m, s.last()) && x == s.last());
                assert(s[s.len() - 1] == x);
                assert(s.contains(x));
            }
        }
        if s.contains(x) && keeps(f, m, x) {
            let j = choose|j: int| 0 <= j < s.len() && s[j] == x;
            if j < s.len() - 1 {
                assert(s.drop_last()[j] == x);
                assert(s.drop_last().contains(x));
                let i = choose|i: int| 0 <= i < fd.len() && fd[i] == x;
                assert(fs[i] == x);
                assert(fs.contains(x));
            } else {
                assert(x == s.last());
                assert(fs[fd.len() as int] == x);
                assert(fs.contains(x));
            }
        }
    }
}

/// Filtering by the `uncategorized` sentinel keeps exactly the records that
/// are absent from the assignment map or have an empty assignment list.
pub proof fn lemma_filter_uncategorized_exact(
    s: Seq<ImagePath>,
    m: Seq<(String, Vec<CategoryAssignment>)>,
    fo: FilterOptions,
)
    requires
        fo.category_id matches Some(c) && c@ == "uncategorized"@,
        fo.name_pattern is None,
        fo.size_value is None,
    ensures
        forall|x: ImagePath|
            filter_keeps(s, m, Some(fo)).contains(x) <==> (s.contains(x) && assignments_of(
                m,
                x.path@,
            ).len() == 0),
{
    reveal_strlit("uncategorized");
    assert forall|x: ImagePath|
        filter_keeps(s, m, Some(fo)).contains(x) <==> (s.contains(x) && assignments_of(
            m,
            x.path@,
        ).len() == 0) by {
        lemma_filter_membership(s, m, Some(fo), x);
    }
}

/// Filtering by a concrete category id keeps exactly the records with at
/// least one assignment carrying that id.
pub proof fn lemma_filter_category_exact(
    s: Seq<ImagePath>,
    m: Seq<(String, Vec<CategoryAssignment>)>,
    fo: FilterOptions,
)
    requires
        fo.category_id matches Some(c) && c@ != "uncategorized"@ && c@.len() > 0,
        fo.name_pattern is None,
        fo.size_value is None,
    ensures
        forall|x: ImagePath|
            filter_keeps(s, m, Some(fo)).contains(x) <==> (s.contains(x) && has_category(
                assignments_of(m, x.path@),
                fo.category_id->Some_0@,
            )),
{
    assert forall|x: ImagePath|
        filter_keeps(s, m, Some(fo)).contains(x) <==> (s.contains(x) && has_category(
            assignments_of(m, x.path@),
            fo.category_id->Some_0@,
        )) by {
        lemma_filter_membership(s, m, Some(fo), x);
    }
}

/// The two `between` thresholds are order-independent: swapping them leaves
/// the filter's verdict on every record unchanged.
pub proof fn lemma_between_order_independent(
    f1: FilterOptions,
    f2: FilterOptions,
    m: Seq<(String, Vec<CategoryAssignment>)>,
    r: ImagePath,
)
    requires
        size_op_of(f1.size_operator) is Between,
        f2.size_operator == f1.size_operator,
        f2.size_value == f1.size_value2,
        f2.size_value2 == f1.size_value,
        f2.category_id == f1.category_id,
        f2.name_pattern == f1.name_pattern,
        f2.name_operator == f1.name_operator,
    ensures
        keeps(Some(f1), m, r) == keeps(Some(f2), m, r),
{
}

} // verus!
