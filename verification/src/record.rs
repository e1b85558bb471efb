//! The record shape stored by the library, its mathematical view, the
//! validation rules applied to creation and update payloads, and the
//! error type returned to callers.
use vstd::prelude::*;
use vstd::string::StrSliceExecFns;
use vstd::string::StringExecFns;
use vstd::utf8::encode_utf8;

verus! {

/// Upper bound, in UTF-8 bytes, on a stored description. Together with the
/// fixed-size fields this keeps every encoded record within
/// [`crate::codec::MAX_ENCODED_LEN`] bytes.
pub const MAX_DESC_BYTES: usize = 975;

/// One stored expense. `amount` is a fixed-point value in minor currency
/// units (for example cents), kept as an integer so that sums and
/// comparisons are exact.
#[derive(Debug, PartialEq)]
pub struct Expense {
    pub id: u64,
    pub description: String,
    pub amount: i64,
    pub date: u64,
    pub created_at: u64,
    pub updated_at: Option<u64>,
}

/// The mathematical value of an [`Expense`].
#[verifier::ext_equal]
pub struct ExpenseView {
    pub id: u64,
    pub description: Seq<char>,
    pub amount: i64,
    pub date: u64,
    pub created_at: u64,
    pub updated_at: Option<u64>,
}

impl View for Expense {
    type V = ExpenseView;

    open spec fn view(&self) -> ExpenseView {
        ExpenseView {
            id: self.id,
            description: self.description@,
            amount: self.amount,
            date: self.date,
            created_at: self.created_at,
            updated_at: self.updated_at,
        }
    }
}

/// The caller-supplied part of a record: everything but the key and the
/// bookkeeping timestamps.
#[derive(Debug, PartialEq)]
pub struct ExpensePayload {
    pub description: String,
    pub amount: i64,
    pub date: u64,
}

/// The mathematical value of an [`ExpensePayload`].
#[verifier::ext_equal]
pub struct PayloadView {
    pub description: Seq<char>,
    pub amount: i64,
    pub date: u64,
}

impl View for ExpensePayload {
    type V = PayloadView;

    open spec fn view(&self) -> PayloadView {
        PayloadView { description: self.description@, amount: self.amount, date: self.date }
    }
}

/// The recoverable failures reported to callers.
#[derive(Debug, PartialEq)]
pub enum Error {
    NotFound { msg: String },
    InvalidInput { msg: String },
}

/// The whitespace characters the validation rules recognise: the
/// Unicode White_Space set.
pub open spec fn is_space_char(c: char) -> bool {
    ||| c == '\u{0009}'
    ||| c == '\u{000A}'
    ||| c == '\u{000B}'
    ||| c == '\u{000C}'
    ||| c == '\u{000D}'
    ||| c == '\u{0020}'
    ||| c == '\u{0085}'
    ||| c == '\u{00A0}'
    ||| c == '\u{1680}'
    ||| ('\u{2000}' <= c && c <= '\u{200A}')
    ||| c == '\u{2028}'
    ||| c == '\u{2029}'
    ||| c == '\u{202F}'
    ||| c == '\u{205F}'
    ||| c == '\u{3000}'
}

/// Decides whether one character is whitespace in the sense of
/// [`is_space_char`].
pub fn is_space(c: char) -> (r: bool)
    ensures
        r == is_space_char(c),
{
    c == '\u{0009}' || c == '\u{000A}' || c == '\u{000B}' || c == '\u{000C}' || c == '\u{000D}'
        || c == '\u{0020}' || c == '\u{0085}' || c == '\u{00A0}' || c == '\u{1680}' || (
    '\u{2000}' <= c && c <= '\u{200A}') || c == '\u{2028}' || c == '\u{2029}' || c == '\u{202F}'
        || c == '\u{205F}' || c == '\u{3000}'
}

/// A text is blank when it is empty or holds whitespace only.
pub open spec fn blank(s: Seq<char>) -> bool {
    forall|i: int| 0 <= i < s.len() ==> is_space_char(s[i])
}

/// A description fits when its UTF-8 encoding stays within
/// [`MAX_DESC_BYTES`] bytes.
pub open spec fn desc_fits(s: Seq<char>) -> bool {
    encode_utf8(s).len() <= MAX_DESC_BYTES
}

/// The canonical validation rule set for creation and update input:
/// a positive amount, a non-blank description that fits the size bound,
/// and a non-zero date.
pub open spec fn payload_valid(p: PayloadView) -> bool {
    &&& p.amount > 0
    &&& !blank(p.description)
    &&& p.date != 0
    &&& desc_fits(p.description)
}

/// A record is valid when the caller-supplied fields obey the payload
/// rules; the key and the bookkeeping timestamps are unconstrained.
pub open spec fn record_valid(r: ExpenseView) -> bool {
    &&& r.amount > 0
    &&& !blank(r.description)
    &&& r.date != 0
    &&& desc_fits(r.description)
}

/// Decides whether a text is blank in the sense of [`blank`].
pub fn is_blank(s: &str) -> (r: bool)
    ensures
        r == blank(s@),
{
    let n = s.unicode_len();
    let mut i: usize = 0;
    while i < n
        invariant
            0 <= i <= n,
            n == s@.len(),
            forall|j: int| 0 <= j < i ==> is_space_char(s@[j]),
        decreases n - i,
    {
        let c = s.get_char(i);
        if !is_space(c) {
            assert(!is_space_char(s@[i as int]));
            return false;
        }
        i = i + 1;
    }
    true
}

/// Applies the validation rules to `p`, first violated rule reported:
/// the error message names the rule that failed.
/// Returns `Ok` exactly on valid payloads.
pub fn check_payload(p: &ExpensePayload) -> (r: Result<(), Error>)
    ensures
        r is Ok <==> payload_valid(p@),
        r is Err ==> r matches Err(Error::InvalidInput { .. }),
        p@.amount <= 0 ==> (r matches Err(Error::InvalidInput { msg }) && msg@
            == "Amount must be greater than zero"@),
        p@.amount > 0 && blank(p@.description) ==> (r matches Err(Error::InvalidInput { msg })
            && msg@ == "Description cannot be empty or whitespace"@),
        p@.amount > 0 && !blank(p@.description) && p@.date == 0 ==> (r matches Err(
            Error::InvalidInput { msg },
        ) && msg@ == "Date timestamp must be set"@),
        p@.amount > 0 && !blank(p@.description) && p@.date != 0 && !desc_fits(p@.description)
            ==> (r matches Err(Error::InvalidInput { msg }) && msg@
            == "Description is too long"@),
{
    if p.amount <= 0 {
        return Err(Error::InvalidInput {
            msg: String::from_str("Amount must be greater than zero"),
        });
    }
    if is_blank(p.description.as_str()) {
        return Err(Error::InvalidInput {
            msg: String::from_str("Description cannot be empty or whitespace"),
        });
    }
    if p.date == 0 {
        return Err(Error::InvalidInput {
            msg: String::from_str("Date timestamp must be set"),
        });
    }
    if p.description.as_str().as_bytes().len() > MAX_DESC_BYTES {
        return Err(Error::InvalidInput {
            msg: String::from_str("Description is too long"),
        });
    }
    Ok(())
}

} // verus!
