//! Filter conditions of a transaction search, as SQL fragments with bound parameters.

use vstd::prelude::*;
use crate::text::{decimal, decimal_nat, push_decimal, push_decimal_nat, texts_view};

verus! {

/// The condition that matches a search term against merchant name and raw description.
pub const SEARCH_CONDITION: &'static str =
    "(LOWER(merchant_name) LIKE '%' || LOWER(?) || '%' OR LOWER(raw_description) LIKE '%' || LOWER(?) || '%')";

/// A month number with at least two digits, zero-padded.
pub open spec fn two_digits(m: nat) -> Seq<char> {
    if m < 10 {
        seq!['0'] + decimal_nat(m)
    } else {
        decimal_nat(m)
    }
}

/// The conditions of a search: spending only, the term, then each filter that is given.
pub open spec fn search_conditions(has_category: bool, has_year: bool, has_month: bool) -> Seq<Seq<char>> {
    seq!["amount < 0"@, SEARCH_CONDITION@] + (if has_category {
        seq!["category = ?"@]
    } else {
        Seq::empty()
    }) + (if has_year {
        seq!["strftime('%Y', date) = ?"@]
    } else {
        Seq::empty()
    }) + (if has_month {
        seq!["strftime('%m', date) = ?"@]
    } else {
        Seq::empty()
    })
}

/// The parameters bound to the conditions, in order: the term twice, then the filters.
pub open spec fn search_params(
    search: Seq<char>,
    category: Option<String>,
    year: Option<i32>,
    month: Option<u32>,
) -> Seq<Seq<char>> {
    seq![search, search] + (match category {
        Some(c) => seq![c@],
        None => Seq::empty(),
    }) + (match year {
        Some(y) => seq![decimal(y as int)],
        None => Seq::empty(),
    }) + (match month {
        Some(m) => seq![two_digits(m as nat)],
        None => Seq::empty(),
    })
}

/// Builds the conditions and bound parameters of a transaction search.
pub fn build_search_conditions(
    search: &str,
    category: &Option<String>,
    year: &Option<i32>,
    month: &Option<u32>,
) -> (r: (Vec<String>, Vec<String>))
    ensures
        texts_view(r.0@) == search_conditions(category is Some, year is Some, month is Some),
        texts_view(r.1@) == search_params(search@, *category, *year, *month),
{
    let mut conditions = vec![String::from_str("amount < 0"), String::from_str(SEARCH_CONDITION)];
    let mut params = vec![String::from_str(search), String::from_str(search)];
    if let Some(cat) = category {
        conditions.push(String::from_str("category = ?"));
        params.push(cat.clone());
    }
    if let Some(y) = year {
        conditions.push(String::from_str("strftime('%Y', date) = ?"));
        let mut t = String::new();
        push_decimal(&mut t, *y as i64);
        assert(t@ =~= decimal(*y as int));
        params.push(t);
    }
    if let Some(m) = month {
        conditions.push(String::from_str("strftime('%m', date) = ?"));
        let mut t = String::new();
        if *m < 10 {
            t.append("0");
            proof { reveal_strlit("0"); }
        }
        push_decimal_nat(&mut t, *m as u64);
        assert(t@ =~= two_digits(*m as nat));
        params.push(t);
    }
    assert(texts_view(conditions@) =~= search_conditions(
        category is Some,
        year is Some,
        month is Some,
    ));
    assert(texts_view(params@) =~= search_params(search@, *category, *year, *month));
    (conditions, params)
}

} // verus!
