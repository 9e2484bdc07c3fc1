//! The query engine: a pure filter-then-sort pipeline over image records.
//! It never fails; malformed inputs degrade to documented no-ops.

use vstd::prelude::*;
use crate::filter::{FilterOptions, filter_keeps, filter_records, lemma_filter_none_identity};
use crate::records::{ImagePath, CategoryAssignment};
use crate::sort::{
    SortKey, sort_key_of, parse_sort_key, sort_by_key, sort_records, reverse_records,
};
use crate::text::str_eq;

verus! {

/// What a query returns: the records that pass the filter, in input order,
/// then sorted by the key. Descending order is exactly the reversal of the
/// ascending sort, and an unrecognized sort key keeps the filtered records
/// in input order whatever the direction.
pub open spec fn query_spec(
    images: Seq<ImagePath>,
    m: Seq<(String, Vec<CategoryAssignment>)>,
    f: Option<FilterOptions>,
    key: SortKey,
    descending: bool,
) -> Seq<ImagePath> {
    let kept = filter_keeps(images, m, f);
    match key {
        SortKey::Unspecified => kept,
        _ => {
            let asc = sort_by_key(key, m, kept);
            if descending {
                asc.reverse()
            } else {
                asc
            }
        },
    }
}

/// Filters and sorts image records. Filtering always runs before sorting;
/// the direction string `descending` reverses the ascending result and any
/// other direction leaves it ascending. The call is total: the `Result`
/// mirrors the host interface and is always `Ok`.
pub fn sort_images(
    images: Vec<ImagePath>,
    sort_option: String,
    sort_direction: String,
    image_categories: Vec<(String, Vec<CategoryAssignment>)>,
    filter_options: Option<FilterOptions>,
) -> (r: Result<Vec<ImagePath>, String>)
    ensures
        r is Ok,
        r->Ok_0@ == query_spec(
            images@,
            image_categories@,
            filter_options,
            sort_key_of(sort_option@),
            sort_direction@ == "descending"@,
        ),
{
    let key: SortKey = parse_sort_key(sort_option.as_str());
    let descending: bool = str_eq(sort_direction.as_str(), "descending");
    let filtered: Vec<ImagePath> = filter_records(images, &image_categories, &filter_options);
    let result: Vec<ImagePath> = match key {
        SortKey::Unspecified => filtered,
        _ => {
            let asc: Vec<ImagePath> = sort_records(key, &image_categories, filtered);
            if descending {
                reverse_records(asc)
            } else {
                asc
            }
        },
    };
    Ok(result)
}

/// Identity law: with no filter and no recognized sort key, a query returns
/// its input unchanged, in the original relative order, whatever the
/// direction.
pub proof fn lemma_query_identity(
    images: Seq<ImagePath>,
    m: Seq<(String, Vec<CategoryAssignment>)>,
    descending: bool,
)
    ensures
        query_spec(images, m, None::<FilterOptions>, SortKey::Unspecified, descending) == images,
{
    lemma_filter_none_identity(images, m);
}

} // verus!
