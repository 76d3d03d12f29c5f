//! The spending categories of the budget.

use vstd::prelude::*;

verus! {

/// A spending category.
#[derive(Debug, Clone, Copy, PartialEq, Eq, Hash, Structural)]
pub enum Category {
    Groceries,
    Dining,
    Transport,
    Housing,
    Insurance,
    Healthcare,
    Shopping,
    Subscriptions,
    Children,
    Travel,
    Cash,
    Transfers,
    Income,
    Fees,
    Other,
    Uncategorised,
}

/// The display name of a category.
pub open spec fn name_spec(c: Category) -> Seq<char> {
    match c {
        Category::Groceries => "Groceries"@,
        Category::Dining => "Dining"@,
        Category::Transport => "Transport"@,
        Category::Housing => "Housing"@,
        Category::Insurance => "Insurance"@,
        Category::Healthcare => "Healthcare"@,
        Category::Shopping => "Shopping"@,
        Category::Subscriptions => "Subscriptions"@,
        Category::Children => "Children"@,
        Category::Travel => "Travel"@,
        Category::Cash => "Cash"@,
        Category::Transfers => "Transfers"@,
        Category::Income => "Income"@,
        Category::Fees => "Fees"@,
        Category::Other => "Other"@,
        Category::Uncategorised => "Uncategorised"@,
    }
}

/// What a category covers.
pub open spec fn description_spec(c: Category) -> Seq<char> {
    match c {
        Category::Groceries => "Supermarkets, food shops, bakeries, butchers"@,
        Category::Dining => "Restaurants, cafes, bars, takeaway, fast food"@,
        Category::Transport => "Public transport, taxis, fuel, parking, car expenses"@,
        Category::Housing => "Rent, mortgage, utilities, electricity, water, heating"@,
        Category::Insurance => "Health insurance, liability, household, car insurance"@,
        Category::Healthcare => "Doctors, dentists, pharmacy, hospital, optician"@,
        Category::Shopping => "Clothing, electronics, furniture, household goods"@,
        Category::Subscriptions => "Streaming, software, newspapers, memberships, phone plan"@,
        Category::Children => "Childcare, school, activities, toys, children's clothing"@,
        Category::Travel => "Hotels, flights, holiday expenses"@,
        Category::Cash => "ATM withdrawals"@,
        Category::Transfers => "Transfers between own accounts, savings"@,
        Category::Income => "Salary, refunds, reimbursements"@,
        Category::Fees => "Bank fees, card fees, foreign exchange fees"@,
        Category::Other => "Anything that doesn't fit above"@,
        Category::Uncategorised => "Transactions that could not be confidently classified"@,
    }
}

/// Every category, in schema order.
pub open spec fn all_spec() -> Seq<Category> {
    seq![
        Category::Groceries,
        Category::Dining,
        Category::Transport,
        Category::Housing,
        Category::Insurance,
        Category::Healthcare,
        Category::Shopping,
        Category::Subscriptions,
        Category::Children,
        Category::Travel,
        Category::Cash,
        Category::Transfers,
        Category::Income,
        Category::Fees,
        Category::Other,
        Category::Uncategorised,
    ]
}

/// The schema line of a category: `- <name>: <description>` and a newline.
pub open spec fn schema_line(c: Category) -> Seq<char> {
    "- "@ + name_spec(c) + ": "@ + description_spec(c) + "\n"@
}

/// The schema lines of `cs`, in order.
pub open spec fn schema_lines(cs: Seq<Category>) -> Seq<char>
    decreases cs.len(),
{
    if cs.len() == 0 {
        Seq::empty()
    } else {
        schema_lines(cs.drop_last()) + schema_line(cs.last())
    }
}

impl Category {
    /// The display name of this category.
    pub fn name(&self) -> (r: &'static str)
        ensures
            r@ == name_spec(*self),
    {
        match self {
            Category::Groceries => "Groceries",
            Category::Dining => "Dining",
            Category::Transport => "Transport",
            Category::Housing => "Housing",
            Category::Insurance => "Insurance",
            Category::Healthcare => "Healthcare",
            Category::Shopping => "Shopping",
            Category::Subscriptions => "Subscriptions",
            Category::Children => "Children",
            Category::Travel => "Travel",
            Category::Cash => "Cash",
            Category::Transfers => "Transfers",
            Category::Income => "Income",
            Category::Fees => "Fees",
            Category::Other => "Other",
            Category::Uncategorised => "Uncategorised",
        }
    }

    /// What this category covers.
    pub fn description(&self) -> (r: &'static str)
        ensures
            r@ == description_spec(*self),
    {
        match self {
            Category::Groceries => "Supermarkets, food shops, bakeries, butchers",
            Category::Dining => "Restaurants, cafes, bars, takeaway, fast food",
            Category::Transport => "Public transport, taxis, fuel, parking, car expenses",
            Category::Housing => "Rent, mortgage, utilities, electricity, water, heating",
            Category::Insurance => "Health insurance, liability, household, car insurance",
            Category::Healthcare => "Doctors, dentists, pharmacy, hospital, optician",
            Category::Shopping => "Clothing, electronics, furniture, household goods",
            Category::Subscriptions => "Streaming, software, newspapers, memberships, phone plan",
            Category::Children => "Childcare, school, activities, toys, children's clothing",
            Category::Travel => "Hotels, flights, holiday expenses",
            Category::Cash => "ATM withdrawals",
            Category::Transfers => "Transfers between own accounts, savings",
            Category::Income => "Salary, refunds, reimbursements",
            Category::Fees => "Bank fees, card fees, foreign exchange fees",
            Category::Other => "Anything that doesn't fit above",
            Category::Uncategorised => "Transactions that could not be confidently classified",
        }
    }

    /// Every category, in schema order; each appears once.
    pub fn all() -> (r: &'static [Category])
        ensures
            r@ == all_spec(),
            forall|c: Category| r@.contains(c),
    {
        let r: &'static [Category] = &[
            Category::Groceries,
            Category::Dining,
            Category::Transport,
            Category::Housing,
            Category::Insurance,
            Category::Healthcare,
            Category::Shopping,
            Category::Subscriptions,
            Category::Children,
            Category::Travel,
            Category::Cash,
            Category::Transfers,
            Category::Income,
            Category::Fees,
            Category::Other,
            Category::Uncategorised,
        ];
        assert(r@ =~= all_spec());
        assert forall|c: Category| r@.contains(c) by {
            let i: int = match c {
                Category::Groceries => 0,
                Category::Dining => 1,
                Category::Transport => 2,
                Category::Housing => 3,
                Category::Insurance => 4,
                Category::Healthcare => 5,
                Category::Shopping => 6,
                Category::Subscriptions => 7,
                Category::Children => 8,
                Category::Travel => 9,
                Category::Cash => 10,
                Category::Transfers => 11,
                Category::Income => 12,
                Category::Fees => 13,
                Category::Other => 14,
                Category::Uncategorised => 15,
            };
            assert(r@[i] == c);
        }
        r
    }

    /// The category schema for a prompt: one line per category, in schema order.
    pub fn schema_for_prompt() -> (r: String)
        ensures
            r@ == schema_lines(all_spec()),
    {
        let cats = Self::all();
        let mut out = String::new();
        let mut i: usize = 0;
        while i < cats.len()
            invariant
                0 <= i <= cats@.len(),
                cats@ == all_spec(),
                out@ == schema_lines(cats@.take(i as int)),
            decreases cats@.len() - i,
        {
            assert(cats@.take(i + 1).drop_last() =~= cats@.take(i as int));
            let c = cats[i];
            out.append("- ");
            out.append(c.name());
            out.append(": ");
            out.append(c.description());
            out.append("\n");
            assert(out@ =~= schema_lines(cats@.take(i + 1)));
            i = i + 1;
        }
        assert(cats@.take(i as int) =~= cats@);
        out
    }
}

} // verus!
