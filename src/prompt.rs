//! The system instruction of the budget assistant.

use vstd::prelude::*;
use crate::text::{decimal, push_decimal};

verus! {

/// The number of transactions in one category.
#[derive(Debug, Clone)]
pub struct CategoryCount {
    pub name: String,
    pub count: i64,
}

/// What the data set holds, for the model's orientation.
#[derive(Debug, Clone)]
pub struct DataSummary {
    pub min_date: Option<String>,
    pub max_date: Option<String>,
    pub total_transactions: i64,
    pub categories: Vec<CategoryCount>,
}

/// A category as stored, with its description.
#[derive(Debug, Clone)]
pub struct CategoryInfo {
    pub name: String,
    pub description: String,
}

/// The schema lines of `cats`: `- <name>: <description>` and a newline each.
pub open spec fn category_lines(cats: Seq<CategoryInfo>) -> Seq<char>
    decreases cats.len(),
{
    if cats.len() == 0 {
        Seq::empty()
    } else {
        category_lines(cats.drop_last()) + "- "@ + cats.last().name@ + ": "@
            + cats.last().description@ + "\n"@
    }
}

/// The count lines of `counts`: `- <name> (<count> tx)` and a newline each.
pub open spec fn count_lines(counts: Seq<CategoryCount>) -> Seq<char>
    decreases counts.len(),
{
    if counts.len() == 0 {
        Seq::empty()
    } else {
        count_lines(counts.drop_last()) + "- "@ + counts.last().name@ + " ("@ + decimal(
            counts.last().count as int,
        ) + " tx)\n"@
    }
}

/// The date range of a summary: `<min> to <max>`, or `unknown range` unless both are known.
pub open spec fn date_range(s: DataSummary) -> Seq<char> {
    match (s.min_date, s.max_date) {
        (Some(a), Some(b)) => a@ + " to "@ + b@,
        _ => "unknown range"@,
    }
}

/// The system instruction for a data summary and the category schema.
pub open spec fn system_prompt(s: DataSummary, cats: Seq<CategoryInfo>) -> Seq<char> {
    PROMPT_HEAD@ + date_range(s) + "\n- Total transactions: "@ + decimal(
        s.total_transactions as int,
    ) + "\n- Categories and counts:\n"@ + count_lines(s.categories@)
        + "\n\nCATEGORY SCHEMA\n"@ + category_lines(cats) + PROMPT_TAIL@
}

/// The opening of the system instruction.
pub const PROMPT_HEAD: &'static str =
    "You are a budget analysis assistant. Use the provided tools to answer questions about spending.\n\n\ntDATA SUMMARY\n- Date range: ";

/// The closing of the system instruction: the tools and the guidance.
pub const PROMPT_TAIL: &'static str =
    "\nTOOLS\n- spending_by_category: totals by category with optional year/month filters\n- monthly_trend: monthly spending totals with optional category/year filters\n- merchant_breakdown: top merchants within a category\n- income_vs_spending: monthly income vs spending, optional year filter\n\nGuidance: keep summaries concise, and use tools for quantitative questions.";

/// Builds the system instruction from the data summary and the stored categories.
pub fn build_system_prompt(summary: &DataSummary, categories: &[CategoryInfo]) -> (r: String)
    ensures
        r@ == system_prompt(*summary, categories@),
{
    let mut category_text = String::new();
    let mut i: usize = 0;
    while i < categories.len()
        invariant
            0 <= i <= categories@.len(),
            category_text@ == category_lines(categories@.take(i as int)),
        decreases categories@.len() - i,
    {
        assert(categories@.take(i + 1).drop_last() =~= categories@.take(i as int));
        let c = &categories[i];
        category_text.append("- ");
        category_text.append(c.name.as_str());
        category_text.append(": ");
        category_text.append(c.description.as_str());
        category_text.append("\n");
        assert(category_text@ =~= category_lines(categories@.take(i + 1)));
        i = i + 1;
    }
    assert(categories@.take(i as int) =~= categories@);
    let mut count_text = String::new();
    let mut j: usize = 0;
    while j < summary.categories.len()
        invariant
            0 <= j <= summary.categories@.len(),
            count_text@ == count_lines(summary.categories@.take(j as int)),
        decreases summary.categories@.len() - j,
    {
        assert(summary.categories@.take(j + 1).drop_last() =~= summary.categories@.take(j as int));
        let e = &summary.categories[j];
        count_text.append("- ");
        count_text.append(e.name.as_str());
        count_text.append(" (");
        push_decimal(&mut count_text, e.count);
        count_text.append(" tx)\n");
        assert(count_text@ =~= count_lines(summary.categories@.take(j + 1)));
        j = j + 1;
    }
    assert(summary.categories@.take(j as int) =~= summary.categories@);
    let mut out = String::from_str(PROMPT_HEAD);
    match (&summary.min_date, &summary.max_date) {
        (Some(a), Some(b)) => {
            out.append(a.as_str());
            out.append(" to ");
            out.append(b.as_str());
        },
        _ => {
            out.append("unknown range");
        },
    }
    out.append("\n- Total transactions: ");
    push_decimal(&mut out, summary.total_transactions);
    out.append("\n- Categories and counts:\n");
    out.append(count_text.as_str());
    out.append("\n\nCATEGORY SCHEMA\n");
    out.append(category_text.as_str());
    out.append(PROMPT_TAIL);
    assert(out@ =~= system_prompt(*summary, categories@));
    out
}

} // verus!
