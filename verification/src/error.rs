//! Why an operation was refused.
use vstd::prelude::*;

verus! {

/// A refusal, told in words.
#[derive(Debug, PartialEq, Eq)]
pub struct Error {
    text: String,
    headline: String,
}

impl View for Error {
    type V = Seq<char>;

    closed spec fn view(&self) -> Seq<char> {
        self.text@
    }
}

impl Clone for Error {
    fn clone(&self) -> (result: Self)
        ensures
            result@ == self@,
            result.head() == self.head(),
    {
        Error { text: self.text.clone(), headline: self.headline.clone() }
    }
}

impl Error {
    /// The part of the words that says most broadly what went wrong.
    pub closed spec fn head(&self) -> Seq<char> {
        self.headline@
    }

    /// The refusal that `text` tells.
    pub fn new(text: String) -> (result: Self)
        ensures
            result@ == text@,
            result.head() == text@,
    {
        Error { headline: text.clone(), text }
    }

    /// The part of the words that says most broadly what went wrong.
    pub fn headline(&self) -> (result: &str)
        ensures
            result@ == self.head(),
    {
        self.headline.as_str()
    }

    /// The words.
    pub fn message(&self) -> (result: &str)
        ensures
            result@ == self@,
    {
        self.text.as_str()
    }

    /// The words.
    pub fn to_string(&self) -> (result: String)
        ensures
            result@ == self@,
    {
        self.text.clone()
    }

    /// The refusal with what was being done put in front.
    pub fn context(self, doing: &str) -> (result: Self)
        ensures
            result@ == within(doing@, self@),
            result.head() == doing@,
    {
        Error {
            text: doing.to_owned().concat(": ").concat(self.text.as_str()),
            headline: doing.to_owned(),
        }
    }
}

/// What was being done, then why it was refused.
pub open spec fn within(doing: Seq<char>, reason: Seq<char>) -> Seq<char> {
    doing + ": "@ + reason
}

/// What `result` holds: a value, or the words of a refusal.
pub open spec fn outcome<T: View>(result: Result<T, Error>) -> Result<T::V, Seq<char>> {
    match result {
        Ok(value) => Ok(value@),
        Err(error) => Err(error@),
    }
}

/// What an [`Error`] tells: all its words, and the broadest part of them.
#[verifier::ext_equal]
pub struct Refusal {
    pub head: Seq<char>,
    pub text: Seq<char>,
}

impl Error {
    /// What the refusal tells.
    pub open spec fn refusal(&self) -> Refusal {
        Refusal { head: self.head(), text: self@ }
    }
}

/// A refusal in the plain words `text`.
pub open spec fn plainly_told(text: Seq<char>) -> Refusal {
    Refusal { head: text, text }
}

/// A refusal with what was being done put in front.
pub open spec fn told_within(doing: Seq<char>, reason: Seq<char>) -> Refusal {
    Refusal { head: doing, text: within(doing, reason) }
}

/// What `result` holds: a value, or what a refusal tells.
pub open spec fn told<T: View>(result: Result<T, Error>) -> Result<T::V, Refusal> {
    match result {
        Ok(value) => Ok(value@),
        Err(error) => Err(error.refusal()),
    }
}

/// The part of the words of a refusal that says most broadly what went wrong.
pub open spec fn headline<T>(result: Result<T, Error>) -> Seq<char> {
    match result {
        Ok(_) => seq![],
        Err(error) => error.head(),
    }
}

/// A refusal tells its words as they are, with nothing being done in front.
pub open spec fn plainly<T>(result: Result<T, Error>) -> bool {
    result matches Err(error) ==> error.head() == error@
}

/// `result` is a refusal in the words `reason`, the broadest part of them `head`,
/// where there is one, and otherwise is not.
pub open spec fn refused_under<T>(
    result: Result<T, Error>,
    head: Seq<char>,
    reason: Option<Seq<char>>,
) -> bool {
    match result {
        Ok(_) => reason is None,
        Err(error) => reason == Some(error@) && error.head() == head,
    }
}

/// `result` is a refusal in the plain words `reason` where there is one, and
/// otherwise is not.
pub open spec fn refused_as<T>(result: Result<T, Error>, reason: Option<Seq<char>>) -> bool {
    match result {
        Ok(_) => reason is None,
        Err(error) => reason == Some(error@) && error.head() == error@,
    }
}

} // verus!
