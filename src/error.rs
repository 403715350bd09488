//! Why an operation of the page manager fails, and how the failure reads.
use vstd::prelude::*;
use vstd::string::StringExecFns;

verus! {

/// Why an operation of the page manager failed. None of them changes the
/// manager, and none rewrites the root config page.
#[derive(Copy, Clone, Debug, PartialEq, Eq, Structural)]
pub enum PageError {
    /// A fresh page would reach `total_allocated_pages`; `last_used_page` is
    /// the index that did.
    OutOfPages { total_allocated_pages: u64, last_used_page: u64 },
    /// The root page records no pages but does record a used page or a
    /// recycled list.
    CorruptBootstrap,
    /// The chain of free-list pages leaves the store or does not end.
    RecycledChainInconsistent,
    /// No committed version with that number is recorded.
    VersionOutOfRange,
    /// The store has no page with that index.
    PageOutOfRange { index: u64 },
}

/// The decimal digit `d`.
pub open spec fn digit_char(d: nat) -> char {
    if d == 0 {
        '0'
    } else if d == 1 {
        '1'
    } else if d == 2 {
        '2'
    } else if d == 3 {
        '3'
    } else if d == 4 {
        '4'
    } else if d == 5 {
        '5'
    } else if d == 6 {
        '6'
    } else if d == 7 {
        '7'
    } else if d == 8 {
        '8'
    } else {
        '9'
    }
}

/// `n` written in decimal, without leading zeros.
pub open spec fn decimal(n: nat) -> Seq<char>
    decreases n,
{
    if n < 10 {
        seq![digit_char(n)]
    } else {
        decimal(n / 10) + seq![digit_char(n % 10)]
    }
}

fn digit_str(d: u64) -> (r: &'static str)
    requires
        d < 10,
    ensures
        r@ == seq![digit_char(d as nat)],
{
    proof {
        reveal_strlit("0");
        reveal_strlit("1");
        reveal_strlit("2");
        reveal_strlit("3");
        reveal_strlit("4");
        reveal_strlit("5");
        reveal_strlit("6");
        reveal_strlit("7");
        reveal_strlit("8");
        reveal_strlit("9");
    }
    match d {
        0 => "0",
        1 => "1",
        2 => "2",
        3 => "3",
        4 => "4",
        5 => "5",
        6 => "6",
        7 => "7",
        8 => "8",
        _ => "9",
    }
}

/// Appends `n` in decimal.
fn push_decimal(s: &mut String, n: u64)
    ensures
        final(s)@ == old(s)@ + decimal(n as nat),
    decreases n,
{
    if n >= 10 {
        push_decimal(s, n / 10);
    }
    s.append(digit_str(n % 10));
    assert(final(s)@ =~= old(s)@ + decimal(n as nat));
}

impl PageError {
    /// The error as text.
    pub fn to_string(&self) -> (r: String)
        ensures
            match *self {
                PageError::OutOfPages { total_allocated_pages, last_used_page } => r@
                    == "Error: not enough pages! total_allocated_pages: "@ + decimal(
                    total_allocated_pages as nat,
                ) + ", last_used_page: "@ + decimal(last_used_page as nat),
                PageError::CorruptBootstrap => r@
                    == "Database file is corrupted: last_used_page != 0 || recycled_pages_page != 0"@,
                PageError::RecycledChainInconsistent => r@
                    == "Error loading recycled pages: the free-list chain is broken"@,
                PageError::VersionOutOfRange => r@ == "Error: no such version is recorded"@,
                PageError::PageOutOfRange { index } => r@ == "Index "@ + decimal(index as nat)
                    + " is out of bounds"@,
            },
    {
        match *self {
            PageError::OutOfPages { total_allocated_pages, last_used_page } => {
                let mut s = String::from_str("Error: not enough pages! total_allocated_pages: ");
                push_decimal(&mut s, total_allocated_pages);
                s.append(", last_used_page: ");
                push_decimal(&mut s, last_used_page);
                s
            },
            PageError::CorruptBootstrap => String::from_str(
                "Database file is corrupted: last_used_page != 0 || recycled_pages_page != 0",
            ),
            PageError::RecycledChainInconsistent => String::from_str(
                "Error loading recycled pages: the free-list chain is broken",
            ),
            PageError::VersionOutOfRange => String::from_str("Error: no such version is recorded"),
            PageError::PageOutOfRange { index } => {
                let mut s = String::from_str("Index ");
                push_decimal(&mut s, index);
                s.append(" is out of bounds");
                s
            },
        }
    }
}

} // verus!
