//! The data the query engine works on: image records, category assignments,
//! and the assignment map from image path to its assignments, together with
//! the timestamp readings the sort keys depend on.

use vstd::prelude::*;
use crate::text::str_eq;

verus! {

/// One enumerated image file with optional metadata.
#[derive(Clone, Debug)]
pub struct ImagePath {
    /// Absolute path; the identity of the record.
    pub path: String,
    /// File size in bytes; `None` means unknown, not zero.
    pub size: Option<u64>,
    /// Creation time as RFC 3339 text; `None` means unknown.
    pub created_at: Option<String>,
}

/// One category tag on an image, with the time it was assigned.
#[derive(Clone, Debug)]
pub struct CategoryAssignment {
    /// Opaque category identifier, compared exactly.
    pub category_id: String,
    /// Assignment time as RFC 3339 text; a stamp that does not parse takes
    /// no part in time-based ordering.
    pub assigned_at: String,
}

impl ImagePath {
    /// A field-for-field copy of the record.
    pub fn duplicate(&self) -> (r: ImagePath)
        ensures
            r == *self,
    {
        ImagePath {
            path: self.path.clone(),
            size: self.size,
            created_at: match &self.created_at {
                None => None,
                Some(s) => Some(s.clone()),
            },
        }
    }
}

/// The seconds-since-epoch value that chrono's RFC 3339 parser yields for a
/// string, or `None` when the string does not parse; a function of the
/// characters alone.
pub uninterp spec fn rfc3339_epoch(s: Seq<char>) -> Option<i64>;

/// Relies on `chrono::DateTime::parse_from_rfc3339` to parse a timestamp
/// string, and on `chrono::DateTime::timestamp` to read the parsed value as
/// whole seconds since the Unix epoch.
#[verifier::external_body]
pub(crate) fn parse_rfc3339_epoch(s: &str) -> (r: Option<i64>)
    ensures
        r == rfc3339_epoch(s@),
{
    match chrono::DateTime::parse_from_rfc3339(s) {
        Ok(dt) => Some(dt.timestamp()),
        Err(_) => None,
    }
}

/// The assignments recorded for a path: the value of the last entry with
/// that key, or the empty sequence when no entry has it. A missing entry
/// and an empty one are equivalent.
pub open spec fn assignments_of(
    m: Seq<(String, Vec<CategoryAssignment>)>,
    path: Seq<char>,
) -> Seq<CategoryAssignment>
    decreases m.len(),
{
    if m.len() == 0 {
        Seq::empty()
    } else if m.last().0@ == path {
        m.last().1@
    } else {
        assignments_of(m.drop_last(), path)
    }
}

/// Looks up the assignments for `path` in the assignment map.
pub fn lookup_assignments<'a>(
    m: &'a Vec<(String, Vec<CategoryAssignment>)>,
    path: &str,
) -> (r: Option<&'a Vec<CategoryAssignment>>)
    ensures
        match r {
            None => assignments_of(m@, path@) == Seq::<CategoryAssignment>::empty(),
            Some(v) => v@ == assignments_of(m@, path@),
        },
{
    let mut j: usize = m.len();
    proof {
        assert(m@.take(m@.len() as int) =~= m@);
    }
    while j > 0
        invariant
            j <= m@.len(),
            assignments_of(m@, path@) == assignments_of(m@.take(j as int), path@),
        decreases j,
    {
        let pair: &(String, Vec<CategoryAssignment>) = &m[j - 1];
        proof {
            assert(m@.take(j as int).last() == m@[j - 1]);
            assert(m@.take(j as int).drop_last() =~= m@.take(j - 1));
        }
        if str_eq(pair.0.as_str(), path) {
            return Some(&pair.1);
        }
        j = j - 1;
    }
    proof {
        assert(m@.take(0).len() == 0);
    }
    None
}

/// The latest parseable assignment stamp in a list, or `None` when no stamp
/// parses.
pub open spec fn latest_stamp(assigns: Seq<CategoryAssignment>) -> Option<i64>
    decreases assigns.len(),
{
    if assigns.len() == 0 {
        None
    } else {
        match (latest_stamp(assigns.drop_last()), rfc3339_epoch(assigns.last().assigned_at@)) {
            (None, None) => None,
            (None, Some(b)) => Some(b),
            (Some(a), None) => Some(a),
            (Some(a), Some(b)) => Some(
                if a >= b {
                    a
                } else {
                    b
                },
            ),
        }
    }
}

/// Computes `latest_stamp` over a list of assignments.
pub fn latest_assignment_epoch(assigns: &Vec<CategoryAssignment>) -> (r: Option<i64>)
    ensures
        r == latest_stamp(assigns@),
{
    let mut best: Option<i64> = None;
    let mut i: usize = 0;
    while i < assigns.len()
        invariant
            i <= assigns@.len(),
            best == latest_stamp(assigns@.take(i as int)),
        decreases assigns@.len() - i,
    {
        let cur: Option<i64> = parse_rfc3339_epoch(assigns[i].assigned_at.as_str());
        proof {
            assert(assigns@.take(i + 1).drop_last() =~= assigns@.take(i as int));
            assert(assigns@.take(i + 1).last() == assigns@[i as int]);
        }
        best = match (best, cur) {
            (None, None) => None,
            (None, Some(b)) => Some(b),
            (Some(a), None) => Some(a),
            (Some(a), Some(b)) => Some(
                if a >= b {
                    a
                } else {
                    b
                },
            ),
        };
        i = i + 1;
    }
    proof {
        assert(assigns@.take(assigns@.len() as int) =~= assigns@);
    }
    best
}

/// The "last categorized" time of a path: the latest parseable stamp among
/// its assignments; `None` stands for "never categorized" and sorts as the
/// oldest possible time.
pub open spec fn last_categorized_key(
    m: Seq<(String, Vec<CategoryAssignment>)>,
    path: Seq<char>,
) -> Option<i64> {
    latest_stamp(assignments_of(m, path))
}

/// Computes `last_categorized_key` for a path.
pub fn last_categorized_epoch(
    m: &Vec<(String, Vec<CategoryAssignment>)>,
    path: &str,
) -> (r: Option<i64>)
    ensures
        r == last_categorized_key(m@, path@),
{
    match lookup_assignments(m, path) {
        None => None,
        Some(v) => latest_assignment_epoch(v),
    }
}

/// A record's size for comparisons: an unknown size counts as zero.
pub open spec fn size_or_zero(r: ImagePath) -> int {
    match r.size {
        None => 0,
        Some(s) => s as int,
    }
}

/// A record's creation time for comparisons: the parsed stamp, or `None`
/// for an absent or unparsable one, which sorts after every parsed time.
pub open spec fn created_key(r: ImagePath) -> Option<i64> {
    match r.created_at {
        None => None,
        Some(s) => rfc3339_epoch(s@),
    }
}

} // verus!
