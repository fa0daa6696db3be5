use vstd::prelude::*;
use vstd::string::StringExecFns;

verus! {

/// What can go wrong in the data hub. Each variant carries the message of
/// the failure it stands for.
#[derive(Clone, Debug, PartialEq, Eq)]
pub enum DataHubError {
    IoError(String),
    RequestError(String),
    JsonError(String),
    ArrowError(String),
    DateError(String),
    ExcelError(String),
    ExchangeError(String),
    DataError(String),
    ParseIntError(String),
    Unknown(String),
}

/// Library result type.
pub type Result<T> = std::result::Result<T, DataHubError>;

/// A `DataHubError` as mathematical values.
pub enum ErrorView {
    IoError(Seq<char>),
    RequestError(Seq<char>),
    JsonError(Seq<char>),
    ArrowError(Seq<char>),
    DateError(Seq<char>),
    ExcelError(Seq<char>),
    ExchangeError(Seq<char>),
    DataError(Seq<char>),
    ParseIntError(Seq<char>),
    Unknown(Seq<char>),
}

impl View for DataHubError {
    type V = ErrorView;

    open spec fn view(&self) -> ErrorView {
        match self {
            DataHubError::IoError(m) => ErrorView::IoError(m@),
            DataHubError::RequestError(m) => ErrorView::RequestError(m@),
            DataHubError::JsonError(m) => ErrorView::JsonError(m@),
            DataHubError::ArrowError(m) => ErrorView::ArrowError(m@),
            DataHubError::DateError(m) => ErrorView::DateError(m@),
            DataHubError::ExcelError(m) => ErrorView::ExcelError(m@),
            DataHubError::ExchangeError(m) => ErrorView::ExchangeError(m@),
            DataHubError::DataError(m) => ErrorView::DataError(m@),
            DataHubError::ParseIntError(m) => ErrorView::ParseIntError(m@),
            DataHubError::Unknown(m) => ErrorView::Unknown(m@),
        }
    }
}

impl DataHubError {
    /// The message that the error carries.
    pub open spec fn spec_message(&self) -> Seq<char> {
        match self {
            DataHubError::IoError(m) => m@,
            DataHubError::RequestError(m) => m@,
            DataHubError::JsonError(m) => m@,
            DataHubError::ArrowError(m) => m@,
            DataHubError::DateError(m) => m@,
            DataHubError::ExcelError(m) => m@,
            DataHubError::ExchangeError(m) => m@,
            DataHubError::DataError(m) => m@,
            DataHubError::ParseIntError(m) => m@,
            DataHubError::Unknown(m) => m@,
        }
    }

    /// A copy of the error.
    pub fn duplicate(&self) -> (out: DataHubError)
        ensures
            out@ == self@,
    {
        match self {
            DataHubError::IoError(m) => DataHubError::IoError(m.clone()),
            DataHubError::RequestError(m) => DataHubError::RequestError(m.clone()),
            DataHubError::JsonError(m) => DataHubError::JsonError(m.clone()),
            DataHubError::ArrowError(m) => DataHubError::ArrowError(m.clone()),
            DataHubError::DateError(m) => DataHubError::DateError(m.clone()),
            DataHubError::ExcelError(m) => DataHubError::ExcelError(m.clone()),
            DataHubError::ExchangeError(m) => DataHubError::ExchangeError(m.clone()),
            DataHubError::DataError(m) => DataHubError::DataError(m.clone()),
            DataHubError::ParseIntError(m) => DataHubError::ParseIntError(m.clone()),
            DataHubError::Unknown(m) => DataHubError::Unknown(m.clone()),
        }
    }

    /// The message that the error carries.
    pub fn message(&self) -> (out: &str)
        ensures
            out@ == self.spec_message(),
    {
        match self {
            DataHubError::IoError(m) => m.as_str(),
            DataHubError::RequestError(m) => m.as_str(),
            DataHubError::JsonError(m) => m.as_str(),
            DataHubError::ArrowError(m) => m.as_str(),
            DataHubError::DateError(m) => m.as_str(),
            DataHubError::ExcelError(m) => m.as_str(),
            DataHubError::ExchangeError(m) => m.as_str(),
            DataHubError::DataError(m) => m.as_str(),
            DataHubError::ParseIntError(m) => m.as_str(),
            DataHubError::Unknown(m) => m.as_str(),
        }
    }
}

impl From<String> for DataHubError {
    fn from(s: String) -> (out: DataHubError) {
        DataHubError::Unknown(s)
    }
}

impl vstd::std_specs::convert::FromSpecImpl<String> for DataHubError {
    open spec fn obeys_from_spec() -> bool {
        true
    }

    open spec fn from_spec(s: String) -> DataHubError {
        DataHubError::Unknown(s)
    }
}

impl<'a> From<&'a str> for DataHubError {
    fn from(s: &'a str) -> (out: DataHubError)
        ensures
            out@ == ErrorView::Unknown(s@),
    {
        DataHubError::Unknown(String::from_str(s))
    }
}

impl<'a> vstd::std_specs::convert::FromSpecImpl<&'a str> for DataHubError {
    /// A text is copied into a new string, which no spec value names: what
    /// `from` returns is stated by its own `ensures`.
    open spec fn obeys_from_spec() -> bool {
        false
    }

    open spec fn from_spec(s: &'a str) -> DataHubError {
        arbitrary()
    }
}

} // verus!
