//! The errors that a storage reports when it cannot serve a request.

use vstd::prelude::*;
use vstd::string::StringExecFns;

verus! {

/// Why a storage could not serve a request.
#[derive(Debug, Clone, Copy, PartialEq, Eq)]
#[non_exhaustive]
#[allow(inconsistent_fields)]
pub enum StorageError {
    /// The storage did not have enough space for the requested allocation.
    InsufficientSpace {
        /// Space required.
        expected: usize,
        /// Space available to store into, where it is known.
        available: Option<usize>,
    },
    /// The alignment of the storage is too small for the requested allocation.
    InvalidAlign {
        /// Alignment required.
        expected: usize,
        /// Alignment that the storage offers.
        available: usize,
    },
    /// Every slot of the storage is in use. Releasing an allocation may help.
    NoSlots,
    /// The storage does not support the requested operation.
    Unimplemented,
}

impl StorageError {
    /// The error for a request whose size does not fit in a `usize`: nothing was
    /// expected that can be written down, and `usize::MAX` was available.
    pub open spec fn spec_exceeds_max() -> StorageError {
        StorageError::InsufficientSpace { expected: 0, available: Some(usize::MAX) }
    }

    /// An error that stands for a request of more than `usize::MAX` bytes.
    pub fn exceeds_max() -> (e: StorageError)
        ensures
            e == Self::spec_exceeds_max(),
    {
        StorageError::InsufficientSpace { expected: 0, available: Some(usize::MAX) }
    }

    /// The error in words.
    pub open spec fn spec_message(self) -> Seq<char> {
        match self {
            StorageError::InsufficientSpace { expected, available } => {
                "Insufficient space in storage. "@ + match available {
                    Some(available) => if available == usize::MAX && expected == 0 {
                        "Expected more than usize::MAX"@
                    } else {
                        "Expected "@ + spec_decimal(expected as nat) + ", but only "@
                            + spec_decimal(available as nat) + " is available"@
                    },
                    None => "Expected "@ + spec_decimal(expected as nat)
                        + ", but less was available"@,
                }
            },
            StorageError::InvalidAlign { expected, available } => {
                "Invalid align to store type. Expected layout of at least "@ + spec_decimal(
                    expected as nat,
                ) + ", but backing was "@ + spec_decimal(available as nat)
            },
            StorageError::NoSlots => "Multi-element storage has run out of slots"@,
            StorageError::Unimplemented => "Operation is not supported on this storage"@,
        }
    }

    /// The error in words, for a reader.
    pub fn message(&self) -> (text: String)
        ensures
            text@ == self.spec_message(),
    {
        match self {
            StorageError::InsufficientSpace { expected, available } => {
                let mut text = String::from_str("Insufficient space in storage. ");
                match available {
                    Some(available) => {
                        if *available == usize::MAX && *expected == 0 {
                            text.append("Expected more than usize::MAX");
                        } else {
                            text.append("Expected ");
                            text.append(decimal(*expected).as_str());
                            text.append(", but only ");
                            text.append(decimal(*available).as_str());
                            text.append(" is available");
                        }
                    },
                    None => {
                        text.append("Expected ");
                        text.append(decimal(*expected).as_str());
                        text.append(", but less was available");
                    },
                }
                proof {
                    let head = "Insufficient space in storage. "@;
                    let number = spec_decimal(*expected as nat);
                    match available {
                        Some(available) => {
                            let other = spec_decimal(*available as nat);
                            assert(head + "Expected "@ + number + ", but only "@ + other
                                + " is available"@ =~= head + ("Expected "@ + number
                                + ", but only "@ + other + " is available"@));
                        },
                        None => {
                            assert(head + "Expected "@ + number + ", but less was available"@
                                =~= head + ("Expected "@ + number + ", but less was available"@));
                        },
                    }
                }
                text
            },
            StorageError::InvalidAlign { expected, available } => {
                let mut text = String::from_str(
                    "Invalid align to store type. Expected layout of at least ",
                );
                text.append(decimal(*expected).as_str());
                text.append(", but backing was ");
                text.append(decimal(*available).as_str());
                text
            },
            StorageError::NoSlots => String::from_str("Multi-element storage has run out of slots"),
            StorageError::Unimplemented => String::from_str(
                "Operation is not supported on this storage",
            ),
        }
    }
}

/// The character of the decimal digit `digit`.
pub open spec fn spec_digit(digit: nat) -> char {
    if digit == 0 {
        '0'
    } else if digit == 1 {
        '1'
    } else if digit == 2 {
        '2'
    } else if digit == 3 {
        '3'
    } else if digit == 4 {
        '4'
    } else if digit == 5 {
        '5'
    } else if digit == 6 {
        '6'
    } else if digit == 7 {
        '7'
    } else if digit == 8 {
        '8'
    } else {
        '9'
    }
}

/// The decimal digits of `n`, without leading zeros.
pub open spec fn spec_decimal(n: nat) -> Seq<char>
    decreases n,
{
    if n < 10 {
        seq![spec_digit(n)]
    } else {
        spec_decimal(n / 10).push(spec_digit(n % 10))
    }
}

/// The decimal digit `digit` as a text.
pub fn digit(d: usize) -> (text: &'static str)
    requires
        d < 10,
    ensures
        text@ == seq![spec_digit(d as nat)],
{
    proof {
        reveal_strlit("0");
        reveal_strlit("1");
        reveal_strlit("2");
        reveal_strlit("3");
        reveal_strlit("4");
        reveal_strlit("5");
        reveal_strlit("6");
        reveal_strlit("7");
        reveal_strlit("8");
        reveal_strlit("9");
    }
    let text = if d == 0 {
        "0"
    } else if d == 1 {
        "1"
    } else if d == 2 {
        "2"
    } else if d == 3 {
        "3"
    } else if d == 4 {
        "4"
    } else if d == 5 {
        "5"
    } else if d == 6 {
        "6"
    } else if d == 7 {
        "7"
    } else if d == 8 {
        "8"
    } else {
        "9"
    };
    assert(text@ =~= seq![spec_digit(d as nat)]);
    text
}

/// The number `n` in decimal digits, without leading zeros.
pub fn decimal(n: usize) -> (text: String)
    ensures
        text@ == spec_decimal(n as nat),
    decreases n,
{
    if n < 10 {
        String::from_str(digit(n))
    } else {
        let mut text = decimal(n / 10);
        text.append(digit(n % 10));
        assert(text@ =~= spec_decimal((n / 10) as nat).push(spec_digit((n % 10) as nat)));
        text
    }
}

} // verus!
