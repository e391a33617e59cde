use vstd::prelude::*;

verus! {

/// The error of every fallible operation of this crate: a message for the user.
#[derive(Debug)]
pub enum ClickHouseError {
    Any(String),
}

impl ClickHouseError {
    /// The message that the error carries.
    pub open spec fn message(self) -> Seq<char> {
        match self {
            ClickHouseError::Any(m) => m@,
        }
    }

    /// An error with the message `prefix` followed by `detail`.
    pub fn with_detail(prefix: &str, detail: &str) -> (e: ClickHouseError)
        ensures
            e.message() == prefix@ + detail@,
    {
        let mut m = String::from_str(prefix);
        m.append(detail);
        ClickHouseError::Any(m)
    }

    /// An error with the message `text`.
    pub fn from_text(text: &str) -> (e: ClickHouseError)
        ensures
            e.message() == text@,
    {
        ClickHouseError::Any(String::from_str(text))
    }

    /// The message that the error carries.
    pub fn to_message(&self) -> (m: String)
        ensures
            m@ == self.message(),
    {
        match self {
            ClickHouseError::Any(m) => m.clone(),
        }
    }
}

} // verus!
